//! The AI commit-message helper's side of the model router: where it is reached, how
//! a request is authorised, the prompt, the framing of the streamed answer, the list of
//! models, and the reconnection delay of the event stream.
use crate::git::spec_utf8_lossy;
use crate::text::{
    decimal, has_prefix, push_decimal, push_str_chars, seqs, split_range, split_spec, str_eq, str_starts_with,
    string_of, string_of_range, string_views, trim, trim_str, chars_of,
};
use vstd::prelude::*;

verus! {

/// Where the model router is reached, and the key it wants.
#[derive(Debug)]
pub struct AmkrConnection {
    pub host: String,
    pub port: u16,
    pub api_key: String,
}

/// The connection the router's configuration gives: host `127.0.0.1`, port 8000 and no
/// key unless it names them.
pub fn resolve_connection(host: Option<String>, port: Option<u16>, api_key: Option<String>) -> (r: AmkrConnection)
    ensures
        r.host@ == (match host {
            Some(h) => h@,
            None => "127.0.0.1"@,
        }),
        r.port == (match port {
            Some(p) => p,
            None => 8000u16,
        }),
        r.api_key@ == (match api_key {
            Some(k) => k@,
            None => Seq::<char>::empty(),
        }),
{
    let h = match host {
        Some(h) => h,
        None => "127.0.0.1".to_owned(),
    };
    let p = match port {
        Some(p) => p,
        None => 8000,
    };
    let k = match api_key {
        Some(k) => k,
        None => String::new(),
    };
    AmkrConnection { host: h, port: p, api_key: k }
}

/// `scheme://host:port` followed by `path`.
pub open spec fn router_url_spec(scheme: Seq<char>, host: Seq<char>, port: u16, path: Seq<char>) -> Seq<char> {
    scheme + "://"@ + host + seq![':'] + decimal(port as nat) + path
}

fn router_url(scheme: &str, c: &AmkrConnection, path: &str) -> (r: String)
    ensures
        r@ == router_url_spec(scheme@, c.host@, c.port, path@),
{
    let mut out: Vec<char> = Vec::new();
    push_str_chars(&mut out, scheme);
    push_str_chars(&mut out, "://");
    push_str_chars(&mut out, c.host.as_str());
    out.push(':');
    push_decimal(&mut out, c.port as u64);
    push_str_chars(&mut out, path);
    let r = string_of(out.as_slice());
    assert(r@ =~= router_url_spec(scheme@, c.host@, c.port, path@));
    r
}

/// The address of the router's metrics.
pub fn metrics_url(c: &AmkrConnection) -> (r: String)
    ensures
        r@ == router_url_spec("http"@, c.host@, c.port, "/metrics"@),
{
    router_url("http", c, "/metrics")
}

/// The address of the router's chat completions.
pub fn completions_url(c: &AmkrConnection) -> (r: String)
    ensures
        r@ == router_url_spec("http"@, c.host@, c.port, "/v1/chat/completions"@),
{
    router_url("http", c, "/v1/chat/completions")
}

/// The address of the router's event stream.
pub fn events_url(c: &AmkrConnection) -> (r: String)
    ensures
        r@ == router_url_spec("ws"@, c.host@, c.port, "/ws/events"@),
{
    router_url("ws", c, "/ws/events")
}

/// The `Authorization` header for a key: none without a key, else `Bearer` and the key.
pub fn bearer_header(api_key: &str) -> (r: Option<String>)
    ensures
        api_key@.len() == 0 ==> r is None,
        api_key@.len() > 0 ==> (r matches Some(h) && h@ == "Bearer "@ + api_key@),
{
    if api_key.is_empty() {
        return None;
    }
    let mut out: Vec<char> = Vec::new();
    push_str_chars(&mut out, "Bearer ");
    push_str_chars(&mut out, api_key);
    Some(string_of(out.as_slice()))
}

/// The prompt that asks for a Conventional Commits message for a staged diff.
pub open spec fn commit_prompt_spec(diff: Seq<char>) -> Seq<char> {
    "根据以下 git diff 生成一条符合 Conventional Commits 规范的 commit 信息。\n\n规则：\n- 格式: <type>(<scope>): <subject>\\n\\n<body>\n- type 可选: feat, fix, docs, style, refactor, perf, test, build, ci, chore\n- subject 用中文，首字母小写，不加句号\n- body 用中文简要说明改动内容和原因\n- 只输出 commit 信息本身，不要解释，不要代码块标记\n\n```\n"@ + diff + "\n```"@
}

/// The prompt for a staged diff, or the error when nothing is staged (the diff is blank).
pub fn commit_prompt(diff: &str) -> (r: Result<String, String>)
    ensures
        trim(diff@).len() == 0 ==> (r matches Err(e) && e@ == "没有暂存的更改"@),
        trim(diff@).len() > 0 ==> (r matches Ok(p) && p@ == commit_prompt_spec(diff@)),
{
    let t = trim_str(diff);
    if t.as_str().is_empty() {
        return Err("没有暂存的更改".to_owned());
    }
    let mut out: Vec<char> = Vec::new();
    push_str_chars(&mut out, "根据以下 git diff 生成一条符合 Conventional Commits 规范的 commit 信息。\n\n规则：\n- 格式: <type>(<scope>): <subject>\\n\\n<body>\n- type 可选: feat, fix, docs, style, refactor, perf, test, build, ci, chore\n- subject 用中文，首字母小写，不加句号\n- body 用中文简要说明改动内容和原因\n- 只输出 commit 信息本身，不要解释，不要代码块标记\n\n```\n");
    push_str_chars(&mut out, diff);
    push_str_chars(&mut out, "\n```");
    Ok(string_of(out.as_slice()))
}

/// The payloads of the complete lines of a streamed answer: of each line, trimmed, that
/// starts with `data: `, what follows, unless that is `[DONE]`.
pub open spec fn sse_payloads(ls: Seq<Seq<char>>) -> Seq<Seq<char>>
    decreases ls.len(),
{
    if ls.len() == 0 {
        Seq::empty()
    } else {
        let t = trim(ls.last());
        sse_payloads(ls.drop_last()) + (if has_prefix(t, "data: "@) && t.subrange(6, t.len() as int) != "[DONE]"@ {
            seq![t.subrange(6, t.len() as int)]
        } else {
            Seq::empty()
        })
    }
}

/// The text of a streamed answer not yet cut into lines.
pub struct SseBuffer {
    buffer: String,
}

impl SseBuffer {
    /// The text received after the last complete line.
    pub closed spec fn pending(&self) -> Seq<char> {
        self.buffer@
    }

    /// Nothing received yet.
    pub fn new() -> (b: Self)
        ensures
            b.pending() == Seq::<char>::empty(),
    {
        SseBuffer { buffer: String::new() }
    }

    /// Takes the next chunk of the answer (decoded, invalid UTF-8 replaced) and returns
    /// the payloads of the lines it completes; the rest waits for the next chunk.
    pub fn push(&mut self, chunk: &[u8]) -> (payloads: Vec<String>)
        ensures
            ({
                let ls = split_spec(old(self).pending() + spec_utf8_lossy(chunk@), '\n');
                &&& final(self).pending() == ls.last()
                &&& string_views(payloads@) == sse_payloads(ls.drop_last())
            }),
    {
        let text = crate::git::utf8_lossy(chunk);
        let mut v = chars_of(self.buffer.as_str());
        let w = chars_of(text.as_str());
        crate::text::push_all(&mut v, w.as_slice());
        let ghost all = v@;
        assert(v@.subrange(0, v@.len() as int) =~= v@);
        let parts = split_range(&v, 0, v.len(), '\n');
        let ghost ls = seqs(parts@);
        proof {
            crate::text::lemma_split_nonempty(all, '\n');
        }
        let n = parts.len();
        let mut out: Vec<String> = Vec::new();
        let mut i: usize = 0;
        while i + 1 < n
            invariant
                n == parts@.len(),
                n >= 1,
                ls == seqs(parts@),
                i < n,
                string_views(out@) == sse_payloads(ls.take(i as int)),
            decreases n - i,
        {
            assert(ls.take(i + 1).drop_last() =~= ls.take(i as int));
            assert(ls.take(i + 1).last() == parts@[i as int]@);
            let line = string_of(parts[i].as_slice());
            let t = trim_str(line.as_str());
            if str_starts_with(t.as_str(), "data: ") {
                let tv = chars_of(t.as_str());
                proof {
                    reveal_strlit("data: ");
                }
                let data = string_of_range(&tv, 6, tv.len());
                if !str_eq(data.as_str(), "[DONE]") {
                    let ghost prev = string_views(out@);
                    out.push(data);
                    assert(string_views(out@) =~= prev + seq![tv@.subrange(6, tv@.len() as int)]);
                } else {
                    assert(string_views(out@) =~= string_views(out@) + Seq::<Seq<char>>::empty());
                }
            } else {
                assert(string_views(out@) =~= string_views(out@) + Seq::<Seq<char>>::empty());
            }
            i = i + 1;
        }
        assert(ls.take((n - 1) as int) =~= ls.drop_last());
        assert(ls.last() == parts@[n - 1]@);
        self.buffer = string_of(parts[n - 1].as_slice());
        out
    }
}

/// The text a streamed payload adds to the message: the string at
/// `choices[0].delta.content` of its JSON, if it parses and has one.
pub open spec fn delta_of(payload: Seq<char>) -> Option<Seq<char>> {
    match crate::json::spec_json_reply(payload) {
        Ok(reply) => reply.3,
        Err(_) => None,
    }
}

/// Adds the content a streamed payload carries (see `delta_of`) to the message, and tells
/// whether there was any.
pub fn append_delta(message: &mut String, payload: &str) -> (appended: bool)
    ensures
        appended == delta_of(payload@) is Some,
        final(message)@ == (match delta_of(payload@) {
            Some(c) => old(message)@ + c,
            None => old(message)@,
        }),
{
    let content = match crate::json::json_reply(payload) {
        Ok(reply) => reply.delta_content,
        Err(_) => None,
    };
    match content {
        Some(c) => {
            let v = chars_of(c.as_str());
            let ghost start = message@;
            let mut i: usize = 0;
            while i < v.len()
                invariant
                    i <= v@.len(),
                    v@ == c@,
                    message@ == start + v@.take(i as int),
                decreases v@.len() - i,
            {
                message.push(v[i]);
                assert(message@ =~= start + v@.take(i + 1));
                i = i + 1;
            }
            assert(v@.take(v@.len() as int) =~= v@);
            true
        },
        None => false,
    }
}

/// The commit message the streamed contents make: trimmed, or the error when nothing is
/// left.
pub fn finish_commit_message(message: &str) -> (r: Result<String, String>)
    ensures
        trim(message@).len() == 0 ==> (r matches Err(e) && e@ == "AI 未返回有效内容"@),
        trim(message@).len() > 0 ==> (r matches Ok(m) && m@ == trim(message@)),
{
    let t = trim_str(message);
    if t.as_str().is_empty() {
        Err("AI 未返回有效内容".to_owned())
    } else {
        Ok(t)
    }
}

/// A model the router offers, with its other names.
#[derive(Debug)]
pub struct AmkrModel {
    pub id: String,
    pub aliases: Option<Vec<String>>,
}

/// A model as listed to the user: id, other names, and whether it is the model the
/// router currently routes everything to.
#[derive(Debug)]
pub struct AmkrModelInfo {
    pub id: String,
    pub aliases: Vec<String>,
    pub is_current: bool,
}

fn clone_strings(v: &Vec<String>) -> (r: Vec<String>)
    ensures
        string_views(r@) == string_views(v@),
{
    let mut out: Vec<String> = Vec::new();
    let mut i: usize = 0;
    while i < v.len()
        invariant
            i <= v@.len(),
            string_views(out@) == string_views(v@).take(i as int),
        decreases v@.len() - i,
    {
        let ghost prev = string_views(out@);
        out.push(v[i].clone());
        assert(string_views(out@) =~= prev.push(v@[i as int]@));
        assert(string_views(v@).take(i + 1) =~= string_views(v@).take(i as int).push(v@[i as int]@));
        i = i + 1;
    }
    assert(string_views(v@).take(v@.len() as int) =~= string_views(v@));
    out
}

/// Lists the models of the configuration, in order, marking the current one.
pub fn model_infos(models: &Vec<AmkrModel>, current: &Option<String>) -> (r: Vec<AmkrModelInfo>)
    ensures
        r@.len() == models@.len(),
        forall|i: int|
            0 <= i < r@.len() ==> {
                &&& (#[trigger] r@[i]).id@ == models@[i].id@
                &&& string_views(r@[i].aliases@) == (match models@[i].aliases {
                    Some(a) => string_views(a@),
                    None => Seq::<Seq<char>>::empty(),
                })
                &&& r@[i].is_current == (current matches Some(c) && c@ == models@[i].id@)
            },
{
    let mut out: Vec<AmkrModelInfo> = Vec::new();
    let mut i: usize = 0;
    while i < models.len()
        invariant
            i <= models@.len(),
            out@.len() == i,
            forall|j: int|
                0 <= j < i ==> {
                    &&& (#[trigger] out@[j]).id@ == models@[j].id@
                    &&& string_views(out@[j].aliases@) == (match models@[j].aliases {
                        Some(a) => string_views(a@),
                        None => Seq::<Seq<char>>::empty(),
                    })
                    &&& out@[j].is_current == (current matches Some(c) && c@ == models@[j].id@)
                },
        decreases models@.len() - i,
    {
        let m = &models[i];
        let aliases = match &m.aliases {
            Some(a) => clone_strings(a),
            None => {
                let e: Vec<String> = Vec::new();
                assert(string_views(e@) =~= Seq::<Seq<char>>::empty());
                e
            },
        };
        let is_current = match current {
            Some(c) => str_eq(c.as_str(), m.id.as_str()),
            None => false,
        };
        out.push(AmkrModelInfo { id: m.id.clone(), aliases, is_current });
        i = i + 1;
    }
    out
}

/// The wait, in seconds, before the next attempt to reach the event stream: twice the
/// last one, at most 30.
pub fn next_retry_delay(delay: u64) -> (r: u64)
    requires
        delay <= u64::MAX / 2,
    ensures
        r == (if delay * 2 < 30 {
            delay * 2
        } else {
            30
        }),
{
    let d = delay * 2;
    if d < 30 {
        d
    } else {
        30
    }
}

} // verus!

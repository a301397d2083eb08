//! Page notes: rules that attach a note to the pages whose address matches a pattern, the
//! answers to the browser extension's messages, and the recognition of browsers.
use crate::text::{
    contains_spec, has_prefix, lower_case, str_contains, str_starts_with, to_lowercase,
};
use vstd::prelude::*;

verus! {

/// How a rule's pattern is matched against a page address.
#[derive(Debug, Clone, Copy, PartialEq, Eq, Structural)]
pub enum MatchMode {
    /// The address contains the pattern.
    Substring,
    /// The pattern is a regular expression that matches somewhere in the address.
    Regex,
}

/// A note shown on the pages whose address matches `pattern`.
#[derive(Debug)]
pub struct PageNoteRule {
    pub id: String,
    pub name: String,
    pub pattern: String,
    pub match_mode: MatchMode,
    pub note: String,
    pub enabled: bool,
}

/// The abstract value of a rule: id, name, pattern, mode, note, enabled.
pub type RuleView = (Seq<char>, Seq<char>, Seq<char>, MatchMode, Seq<char>, bool);

impl View for PageNoteRule {
    type V = RuleView;

    open spec fn view(&self) -> RuleView {
        (self.id@, self.name@, self.pattern@, self.match_mode, self.note@, self.enabled)
    }
}

/// The views of rules.
pub open spec fn rule_views(v: Seq<PageNoteRule>) -> Seq<RuleView> {
    v.map_values(|r: PageNoteRule| r@)
}

/// The page notes configuration: the rules, in order, and the port of the server the
/// browser extension connects to.
#[derive(Debug)]
pub struct PageNotesConfig {
    pub rules: Vec<PageNoteRule>,
    pub ws_port: u16,
}

/// The port the extension connects to unless configured otherwise.
pub fn default_ws_port() -> (r: u16)
    ensures
        r == 17233,
{
    17233
}

impl Default for PageNotesConfig {
    fn default() -> (r: Self)
        ensures
            r.rules@.len() == 0,
            r.ws_port == 17233,
    {
        PageNotesConfig { rules: Vec::new(), ws_port: default_ws_port() }
    }
}

/// A compiled regular expression of `regex::Regex`.
#[verifier::external_type_specification]
#[verifier::external_body]
pub struct ExRegex(regex::Regex);

/// `regex::Regex::new` accepts the pattern.
pub uninterp spec fn spec_regex_valid(pattern: Seq<char>) -> bool;

/// `regex::Regex::is_match` of the regex compiled from `pattern` finds a match somewhere
/// in `text`.
pub uninterp spec fn spec_regex_is_match(pattern: Seq<char>, text: Seq<char>) -> bool;

/// A regular expression with the pattern it was compiled from.
pub struct CompiledPattern {
    re: regex::Regex,
    source: Ghost<Seq<char>>,
}

impl CompiledPattern {
    /// The pattern it was compiled from.
    pub closed spec fn source(&self) -> Seq<char> {
        self.source@
    }
}

/// Calls `regex::Regex::new`, which accepts or refuses a pattern (its syntax and its
/// size limits) as a function of the pattern alone; which patterns it accepts is named by
/// `spec_regex_valid`.
#[verifier::external_body]
fn compile_pattern(pattern: &str) -> (r: Option<CompiledPattern>)
    ensures
        r is Some <==> spec_regex_valid(pattern@),
        r matches Some(c) ==> c.source() == pattern@,
{
    match regex::Regex::new(pattern) {
        Ok(re) => Some(CompiledPattern { re, source: Ghost(pattern@) }),
        Err(_) => None,
    }
}

/// Calls `regex::Regex::is_match`, whether the regex matches somewhere in `text`; the
/// result is named by `spec_regex_is_match` over the pattern and the text.
#[verifier::external_body]
fn pattern_is_match(c: &CompiledPattern, text: &str) -> (r: bool)
    ensures
        r == spec_regex_is_match(c.source(), text@),
{
    c.re.is_match(text)
}

/// A rule applies to an address: it is enabled and its pattern matches.
pub open spec fn rule_applies(r: RuleView, url: Seq<char>) -> bool {
    &&& r.5
    &&& match r.3 {
        MatchMode::Substring => contains_spec(url, r.2),
        MatchMode::Regex => spec_regex_valid(r.2) && spec_regex_is_match(r.2, url),
    }
}

/// The index of the first rule that applies to the address.
pub open spec fn first_applying(rules: Seq<RuleView>, url: Seq<char>) -> Option<int>
    decreases rules.len(),
{
    if rules.len() == 0 {
        None
    } else {
        match first_applying(rules.drop_last(), url) {
            Some(i) => Some(i),
            None => if rule_applies(rules.last(), url) {
                Some(rules.len() - 1)
            } else {
                None
            },
        }
    }
}

proof fn lemma_first_applying_prefix(rules: Seq<RuleView>, url: Seq<char>, k: int)
    requires
        0 <= k <= rules.len(),
        first_applying(rules.take(k), url) is Some,
    ensures
        first_applying(rules, url) == first_applying(rules.take(k), url),
    decreases rules.len() - k,
{
    if k < rules.len() {
        assert(rules.take(k + 1).drop_last() =~= rules.take(k));
        lemma_first_applying_prefix(rules, url, k + 1);
    } else {
        assert(rules.take(k) =~= rules);
    }
}

fn rule_applies_exec(rule: &PageNoteRule, url: &str) -> (b: bool)
    ensures
        b == rule_applies(rule@, url@),
{
    if !rule.enabled {
        return false;
    }
    match rule.match_mode {
        MatchMode::Substring => str_contains(url, rule.pattern.as_str()),
        MatchMode::Regex => match compile_pattern(rule.pattern.as_str()) {
            Some(c) => pattern_is_match(&c, url),
            None => false,
        },
    }
}

/// The first enabled rule, in list order, whose pattern matches the address (a regular
/// expression that does not compile matches nothing).
pub fn find_matching_rule(url: &str, rules: &[PageNoteRule]) -> (r: Option<usize>)
    ensures
        match r {
            Some(i) => first_applying(rule_views(rules@), url@) == Some(i as int),
            None => first_applying(rule_views(rules@), url@) is None,
        },
        r matches Some(i) ==> i < rules@.len(),
{
    let ghost all = rule_views(rules@);
    let mut i: usize = 0;
    while i < rules.len()
        invariant
            all == rule_views(rules@),
            i <= rules@.len(),
            first_applying(all.take(i as int), url@) is None,
        decreases rules@.len() - i,
    {
        assert(all.take(i + 1).drop_last() =~= all.take(i as int));
        assert(all.take(i + 1).last() == rules@[i as int]@);
        if rule_applies_exec(&rules[i], url) {
            proof {
                assert(first_applying(all.take(i + 1), url@) == Some(i as int));
                lemma_first_applying_prefix(all, url@, i + 1);
            }
            return Some(i);
        }
        i = i + 1;
    }
    assert(all.take(rules@.len() as int) =~= all);
    None
}

/// A message from the browser extension.
#[derive(Debug)]
pub enum WsInMessage {
    /// The page in front changed.
    UrlChange { url: String, title: String },
    /// The extension checks the connection.
    Ping,
}

/// A message to the browser extension.
#[derive(Debug)]
pub enum WsOutMessage {
    /// A rule applies to the page.
    NoteMatch { rule_id: String, name: String, note: String },
    /// No rule applies to the page.
    NoMatch,
    /// The answer to a ping.
    Pong,
}

/// What the widget is told about the page in front.
#[derive(Debug)]
pub struct PageNotesUpdate {
    pub url: String,
    pub title: String,
    pub matched: bool,
    pub rule_id: Option<String>,
    pub name: Option<String>,
    pub note: Option<String>,
}

/// The answer to an extension's message: the message sent back, and what the widget is
/// told (nothing for a ping).
#[derive(Debug)]
pub struct WsReply {
    pub reply: WsOutMessage,
    pub update: Option<PageNotesUpdate>,
}

/// The view of an optional string.
pub open spec fn opt_view(o: Option<String>) -> Option<Seq<char>> {
    match o {
        Some(s) => Some(s@),
        None => None,
    }
}

/// The answer to a page change is the first rule that applies, if any: its id, name and
/// note go back to the extension and to the widget, with the page's address and title.
pub open spec fn url_change_reply(rules: Seq<RuleView>, url: Seq<char>, title: Seq<char>, r: WsReply) -> bool {
    match first_applying(rules, url) {
        Some(i) => {
            &&& r.reply matches WsOutMessage::NoteMatch { rule_id, name, note }
            &&& rule_id@ == rules[i].0 && name@ == rules[i].1 && note@ == rules[i].4
            &&& r.update matches Some(u) && u.url@ == url && u.title@ == title && u.matched
                && opt_view(u.rule_id) == Some(rules[i].0) && opt_view(u.name) == Some(rules[i].1)
                && opt_view(u.note) == Some(rules[i].4)
        },
        None => {
            &&& r.reply is NoMatch
            &&& r.update matches Some(u) && u.url@ == url && u.title@ == title && !u.matched
                && u.rule_id is None && u.name is None && u.note is None
        },
    }
}

/// Answers a message of the browser extension with the configured rules.
pub fn respond_to_message(config: &PageNotesConfig, msg: WsInMessage) -> (r: WsReply)
    ensures
        match msg {
            WsInMessage::UrlChange { url, title } => url_change_reply(rule_views(config.rules@), url@, title@, r),
            WsInMessage::Ping => r.reply is Pong && r.update is None,
        },
{
    match msg {
        WsInMessage::UrlChange { url, title } => {
            let ghost rv = rule_views(config.rules@);
            let rules = config.rules.as_slice();
            assert(rules@ == config.rules@);
            let found = find_matching_rule(url.as_str(), rules);
            match found {
                Some(i) => {
                    let rule = &config.rules[i];
                    assert(rv[i as int] == rule@);
                    let update = PageNotesUpdate {
                        url,
                        title,
                        matched: true,
                        rule_id: Some(rule.id.clone()),
                        name: Some(rule.name.clone()),
                        note: Some(rule.note.clone()),
                    };
                    let reply = WsOutMessage::NoteMatch {
                        rule_id: rule.id.clone(),
                        name: rule.name.clone(),
                        note: rule.note.clone(),
                    };
                    let res = WsReply { reply, update: Some(update) };
                    assert(url_change_reply(rv, res.update->0.url@, res.update->0.title@, res));
                    res
                },
                None => {
                    let update = PageNotesUpdate { url, title, matched: false, rule_id: None, name: None, note: None };
                    let res = WsReply { reply: WsOutMessage::NoMatch, update: Some(update) };
                    assert(url_change_reply(rv, res.update->0.url@, res.update->0.title@, res));
                    res
                },
            }
        },
        WsInMessage::Ping => WsReply { reply: WsOutMessage::Pong, update: None },
    }
}

/// The executables of the browsers whose address bar is read.
pub open spec fn browsers_spec() -> Seq<Seq<char>> {
    seq!["chrome.exe"@, "msedge.exe"@, "brave.exe"@, "vivaldi.exe"@]
}

/// A process is a browser when its name, in lower case, contains one of the browser
/// executables.
pub open spec fn is_browser_spec(process: Seq<char>) -> bool {
    exists|i: int| 0 <= i < browsers_spec().len() && contains_spec(lower_case(process), #[trigger] browsers_spec()[i])
}

/// Whether the process is a browser whose address bar is read.
pub fn is_browser(process: &str) -> (r: bool)
    ensures
        r == is_browser_spec(process@),
{
    let p = to_lowercase(process);
    let b0 = str_contains(p.as_str(), "chrome.exe");
    let b1 = str_contains(p.as_str(), "msedge.exe");
    let b2 = str_contains(p.as_str(), "brave.exe");
    let b3 = str_contains(p.as_str(), "vivaldi.exe");
    let ghost bs = browsers_spec();
    assert(bs[0] == "chrome.exe"@ && bs[1] == "msedge.exe"@ && bs[2] == "brave.exe"@ && bs[3] == "vivaldi.exe"@);
    b0 || b1 || b2 || b3
}

/// An address bar value is taken as the page address when it starts with `http://` or
/// `https://`.
pub open spec fn looks_like_url_spec(value: Seq<char>) -> bool {
    has_prefix(value, "http://"@) || has_prefix(value, "https://"@)
}

/// Whether an address bar value is a web address.
pub fn looks_like_url(value: &str) -> (r: bool)
    ensures
        r == looks_like_url_spec(value@),
{
    str_starts_with(value, "http://") || str_starts_with(value, "https://")
}

/// The rule a page's note comes from is enabled and matches the address, and no rule
/// before it in the list applies; when no rule is found, none applies.
pub proof fn law_first_enabled_match_wins(rules: Seq<RuleView>, url: Seq<char>)
    ensures
        first_applying(rules, url) matches Some(i) ==> {
            &&& 0 <= i < rules.len()
            &&& rules[i].5
            &&& rule_applies(rules[i], url)
            &&& forall|j: int| 0 <= j < i ==> !rule_applies(#[trigger] rules[j], url)
        },
        first_applying(rules, url) is None ==> forall|j: int| 0 <= j < rules.len() ==> !rule_applies(#[trigger] rules[j], url),
    decreases rules.len(),
{
    if rules.len() > 0 {
        let p = rules.drop_last();
        law_first_enabled_match_wins(p, url);
        assert forall|j: int| 0 <= j < p.len() implies rules[j] == #[trigger] p[j] by {}
        match first_applying(p, url) {
            Some(i) => {
                assert(first_applying(rules, url) == Some(i));
                assert(rules[i] == p[i]);
                assert forall|j: int| 0 <= j < i implies !rule_applies(#[trigger] rules[j], url) by {
                    assert(rules[j] == p[j]);
                }
            },
            None => {
                assert forall|j: int| 0 <= j < p.len() implies !rule_applies(#[trigger] rules[j], url) by {
                    assert(rules[j] == p[j]);
                }
                if rule_applies(rules.last(), url) {
                    assert(first_applying(rules, url) == Some(rules.len() - 1));
                } else {
                    assert(first_applying(rules, url) is None);
                    assert forall|j: int| 0 <= j < rules.len() implies !rule_applies(#[trigger] rules[j], url) by {
                        if j < p.len() {
                            assert(rules[j] == p[j]);
                        }
                    }
                }
            },
        }
    }
}

/// A disabled rule gives no note, whatever its pattern.
pub proof fn law_disabled_rule_never_applies(r: RuleView, url: Seq<char>)
    requires
        !r.5,
    ensures
        !rule_applies(r, url),
{
}

} // verus!

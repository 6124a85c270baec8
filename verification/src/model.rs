//! Everything that knows what a language model is: the Ollama endpoints, the
//! newline-delimited JSON stream it answers with, and the messages a person
//! sees when something goes wrong.

use vstd::prelude::*;

use crate::json::{
    is_json, json_accepts, json_quoted, quote_json, json_array_len_at, json_bool_at, json_str_at, json_u64_at,
    read_json_array_len,
    read_json_bool, read_json_str, read_json_u64,
};
use crate::text::{
    ascii_lower, is_ascii_text,
    chars_of, contains, decimal, decimal_text, decode_lossy, has_substring, lowercase, same_text, to_lowercase,
    trim_chars, trimmed, utf8_lossy,
};

verus! {

// ---------------------------------------------------------------------------
// Endpoints and messages
// ---------------------------------------------------------------------------

/// `host` followed by `path`.
fn join_url(host: &str, path: &str) -> (u: String)
    ensures
        u@ == host@ + path@,
{
    let mut u = String::new();
    u.append(host);
    u.append(path);
    u
}

/// The chat endpoint of the Ollama server at `host`.
pub fn chat_url(host: &str) -> (u: String)
    ensures
        u@ == host@ + "/api/chat"@,
{
    join_url(host, "/api/chat")
}

/// The endpoint that lists the models pulled on the server at `host`.
pub fn tags_url(host: &str) -> (u: String)
    ensures
        u@ == host@ + "/api/tags"@,
{
    join_url(host, "/api/tags")
}

/// The endpoint that pulls a model onto the server at `host`.
pub fn pull_url(host: &str) -> (u: String)
    ensures
        u@ == host@ + "/api/pull"@,
{
    join_url(host, "/api/pull")
}

/// The body of a request to pull `model`, streaming its progress.
pub open spec fn pull_body_text(model: Seq<char>) -> Seq<char> {
    "{\"model\":"@ + json_quoted(model) + ",\"stream\":true}"@
}

/// The JSON body of a request to pull `model`: `{"model": model, "stream": true}`.
pub fn pull_body(model: &str) -> (body: String)
    ensures
        body@ == pull_body_text(model@),
{
    let quoted = quote_json(model);
    let mut body = String::new();
    body.append("{\"model\":");
    body.append(quoted.as_str());
    body.append(",\"stream\":true}");
    body
}

/// The advice given when the server has no model called `model`.
pub open spec fn no_model_text(model: Seq<char>) -> Seq<char> {
    "No model called "@ + model + ". Pull it with: ollama pull "@ + model
}

/// The advice given when the server cannot be reached.
pub open spec fn not_running_text() -> Seq<char> {
    "Ollama isn't running. Start it, then try again."@
}

/// The report of an HTTP status that is neither success nor a missing model.
pub open spec fn answered_text(status: Seq<char>) -> Seq<char> {
    "Ollama answered "@ + status
}

/// Whether the lower-cased error text `low` says the server could not be reached.
pub open spec fn says_unreachable(low: Seq<char>) -> bool {
    has_substring(low, "connect"@) || has_substring(low, "refused"@) || has_substring(
        low,
        "dns"@,
    )
}

/// Whether the lower-cased error text `low` says the model is missing.
pub open spec fn says_no_model(low: Seq<char>) -> bool {
    has_substring(low, "not found"@) || has_substring(low, "no such model"@)
}

/// What a person is told for the raw error text `raw`, whose lower-cased form
/// is `low`: a refused or failed connection means the server isn't running, a
/// missing model gets the pull command, anything else is passed through as it came.
pub open spec fn friendly_choice(low: Seq<char>, raw: Seq<char>, model: Seq<char>) -> Seq<char> {
    if says_unreachable(low) {
        not_running_text()
    } else if says_no_model(low) {
        no_model_text(model)
    } else {
        raw
    }
}

/// What a person is told for the raw error text `raw`.
pub open spec fn friendly_text(raw: Seq<char>, model: Seq<char>) -> Seq<char> {
    friendly_choice(lowercase(raw), raw, model)
}

/// `k` agrees with `x` from position `i` on, over the characters from the
/// `j`-th of `k` that `x` still has: `k` could occur at `i` as far as `x` shows.
pub open spec fn agrees_at(x: Seq<char>, k: Seq<char>, i: int, j: int) -> bool
    decreases k.len() - j,
{
    if j < 0 || j >= k.len() || i + j >= x.len() {
        true
    } else {
        x[i + j] == k[j] && agrees_at(x, k, i, j + 1)
    }
}

/// No occurrence of `k` can begin inside `x` at position `i` or later,
/// whatever follows `x`.
pub open spec fn starts_nowhere_from(x: Seq<char>, k: Seq<char>, i: int) -> bool
    decreases x.len() - i,
{
    if i < 0 || i >= x.len() {
        true
    } else {
        !agrees_at(x, k, i, 0) && starts_nowhere_from(x, k, i + 1)
    }
}

/// No occurrence of `k` can begin inside `x`, whatever follows `x`.
pub open spec fn starts_nowhere(x: Seq<char>, k: Seq<char>) -> bool {
    starts_nowhere_from(x, k, 0)
}

proof fn lemma_agrees_at(x: Seq<char>, k: Seq<char>, i: int, j: int)
    requires
        0 <= j,
        forall|t: int| j <= t < k.len() && i + t < x.len() ==> x[i + t] == k[t],
    ensures
        agrees_at(x, k, i, j),
    decreases k.len() - j,
{
    if j < k.len() && i + j < x.len() {
        lemma_agrees_at(x, k, i, j + 1);
    }
}

proof fn lemma_starts_nowhere(x: Seq<char>, k: Seq<char>, s: int, i: int)
    requires
        0 <= s <= i < x.len(),
        starts_nowhere_from(x, k, s),
    ensures
        !agrees_at(x, k, i, 0),
    decreases i - s,
{
    if s < i {
        lemma_starts_nowhere(x, k, s + 1, i);
    }
}

/// When no occurrence of `k` can begin inside `x`, any occurrence in `x + y` lies in `y`.
pub proof fn lemma_occurrence_after(x: Seq<char>, y: Seq<char>, k: Seq<char>)
    requires
        starts_nowhere(x, k),
        k.len() > 0,
        has_substring(x + y, k),
    ensures
        has_substring(y, k),
{
    let xy = x + y;
    let i = choose|i: int|
        0 <= i && i + k.len() <= xy.len() && #[trigger] xy.subrange(i, i + k.len()) == k;
    if i < x.len() {
        assert forall|t: int| 0 <= t < k.len() && i + t < x.len() implies x[i + t] == k[t] by {
            assert(xy.subrange(i, i + k.len())[t] == xy[i + t]);
        }
        lemma_agrees_at(x, k, i, 0);
        lemma_starts_nowhere(x, k, 0, i);
    } else {
        let i2 = i - x.len();
        assert(y.subrange(i2, i2 + k.len()) =~= xy.subrange(i, i + k.len()));
    }
}

/// A character that `k` does not hold cannot lie inside an occurrence of `k`:
/// one in `x + y` lies in `x` or in `y` when `y` begins with such a character.
pub proof fn lemma_occurrence_split(x: Seq<char>, y: Seq<char>, k: Seq<char>)
    requires
        y.len() > 0,
        forall|j: int| 0 <= j < k.len() ==> k[j] != y[0],
        has_substring(x + y, k),
    ensures
        has_substring(x, k) || has_substring(y, k),
{
    let xy = x + y;
    let i = choose|i: int|
        0 <= i && i + k.len() <= xy.len() && #[trigger] xy.subrange(i, i + k.len()) == k;
    if i + k.len() <= x.len() {
        assert(x.subrange(i, i + k.len()) =~= xy.subrange(i, i + k.len()));
    } else if i >= x.len() {
        let i2 = i - x.len();
        assert(y.subrange(i2, i2 + k.len()) =~= xy.subrange(i, i + k.len()));
    } else {
        let j = x.len() - i;
        assert(xy.subrange(i, i + k.len())[j] == xy[x.len() as int]);
        assert(k[j] == y[0]);
    }
}

proof fn lemma_ascii_concat(x: Seq<char>, y: Seq<char>)
    ensures
        is_ascii_text(x + y) == (is_ascii_text(x) && is_ascii_text(y)),
    decreases x.len(),
{
    if x.len() > 0 {
        assert((x + y).drop_first() == x.drop_first() + y);
        lemma_ascii_concat(x.drop_first(), y);
    } else {
        assert(x + y == y);
    }
}

/// The fixed advice that the server isn't running reads as such again.
proof fn lemma_not_running_settles(model: Seq<char>)
    ensures
        friendly_choice(lowercase(not_running_text()), not_running_text(), model)
            == not_running_text(),
{
    reveal_strlit("Ollama isn't running. Start it, then try again.");
    reveal_strlit("connect");
    reveal_strlit("refused");
    reveal_strlit("dns");
    reveal_strlit("not found");
    reveal_strlit("no such model");
    let t = not_running_text();
    reveal_with_fuel(is_ascii_text, 48);
    assert(is_ascii_text(t));
    let low = ascii_lower(t);
    reveal_with_fuel(starts_nowhere_from, 48);
    reveal_with_fuel(agrees_at, 3);
    let e = Seq::<char>::empty();
    assert(low + e == low);
    assert(!has_substring(e, "connect"@));
    assert(!has_substring(e, "refused"@));
    assert(!has_substring(e, "dns"@));
    assert(!has_substring(e, "not found"@));
    assert(!has_substring(e, "no such model"@));
    assert(starts_nowhere(low, "connect"@));
    assert(starts_nowhere(low, "refused"@));
    assert(starts_nowhere(low, "dns"@));
    assert(starts_nowhere(low, "not found"@));
    assert(starts_nowhere(low, "no such model"@));
    if has_substring(low, "connect"@) {
        lemma_occurrence_after(low, e, "connect"@);
    }
    if has_substring(low, "refused"@) {
        lemma_occurrence_after(low, e, "refused"@);
    }
    if has_substring(low, "dns"@) {
        lemma_occurrence_after(low, e, "dns"@);
    }
    if has_substring(low, "not found"@) {
        lemma_occurrence_after(low, e, "not found"@);
    }
    if has_substring(low, "no such model"@) {
        lemma_occurrence_after(low, e, "no such model"@);
    }
}

/// `c` does not occur in `k` from position `j` on.
pub open spec fn lacks_from(k: Seq<char>, c: char, j: int) -> bool
    decreases k.len() - j,
{
    if j < 0 || j >= k.len() {
        true
    } else {
        k[j] != c && lacks_from(k, c, j + 1)
    }
}

proof fn lemma_lacks_from(k: Seq<char>, c: char, j: int, t: int)
    requires
        0 <= j <= t < k.len(),
        lacks_from(k, c, j),
    ensures
        k[t] != c,
    decreases t - j,
{
    if j < t {
        lemma_lacks_from(k, c, j + 1, t);
    }
}

/// An occurrence of `k`, which holds no full stop, in the advice
/// `a + name + b + name` must lie in the name, when `b` begins with a full stop
/// and no occurrence of `k` can begin in `a` or in `b`.
proof fn lemma_keyword_in_advice(a: Seq<char>, b: Seq<char>, lm: Seq<char>, k: Seq<char>)
    requires
        k.len() > 0,
        lacks_from(k, '.', 0),
        starts_nowhere(a, k),
        starts_nowhere(b, k),
        b.len() > 0,
        b[0] == '.',
        !has_substring(lm, k),
    ensures
        !has_substring((a + lm) + (b + lm), k),
{
    if has_substring((a + lm) + (b + lm), k) {
        assert((b + lm)[0] == '.');
        assert forall|j: int| 0 <= j < k.len() implies k[j] != (b + lm)[0] by {
            lemma_lacks_from(k, '.', 0, j);
        }
        lemma_occurrence_split(a + lm, b + lm, k);
        if has_substring(a + lm, k) {
            lemma_occurrence_after(a, lm, k);
        } else {
            lemma_occurrence_after(b, lm, k);
        }
    }
}

/// The lower-case opening of the missing-model advice.
spec fn advice_head() -> Seq<char> {
    ascii_lower("No model called "@)
}

/// The lower-case middle of the missing-model advice.
spec fn advice_middle() -> Seq<char> {
    ascii_lower(". Pull it with: ollama pull "@)
}

proof fn lemma_keywords_are_plain()
    ensures
        lacks_from("connect"@, '.', 0),
        lacks_from("refused"@, '.', 0),
        lacks_from("dns"@, '.', 0),
        lacks_from("not found"@, '.', 0),
        lacks_from("no such model"@, '.', 0),
        "connect"@.len() > 0,
        "refused"@.len() > 0,
        "dns"@.len() > 0,
        "not found"@.len() > 0,
        "no such model"@.len() > 0,
{
    reveal_strlit("connect");
    reveal_strlit("refused");
    reveal_strlit("dns");
    reveal_strlit("not found");
    reveal_strlit("no such model");
    reveal_with_fuel(lacks_from, 14);
}

proof fn lemma_head_starts_no_keyword()
    ensures
        is_ascii_text("No model called "@),
        starts_nowhere(advice_head(), "connect"@),
        starts_nowhere(advice_head(), "refused"@),
        starts_nowhere(advice_head(), "dns"@),
        starts_nowhere(advice_head(), "not found"@),
        starts_nowhere(advice_head(), "no such model"@),
{
    reveal_strlit("No model called ");
    reveal_strlit("connect");
    reveal_strlit("refused");
    reveal_strlit("dns");
    reveal_strlit("not found");
    reveal_strlit("no such model");
    reveal_with_fuel(is_ascii_text, 17);
    reveal_with_fuel(starts_nowhere_from, 17);
    reveal_with_fuel(agrees_at, 4);
}

proof fn lemma_middle_starts_no_keyword()
    ensures
        is_ascii_text(". Pull it with: ollama pull "@),
        advice_middle().len() > 0,
        advice_middle()[0] == '.',
        starts_nowhere(advice_middle(), "connect"@),
        starts_nowhere(advice_middle(), "refused"@),
        starts_nowhere(advice_middle(), "dns"@),
        starts_nowhere(advice_middle(), "not found"@),
        starts_nowhere(advice_middle(), "no such model"@),
{
    reveal_strlit(". Pull it with: ollama pull ");
    reveal_strlit("connect");
    reveal_strlit("refused");
    reveal_strlit("dns");
    reveal_strlit("not found");
    reveal_strlit("no such model");
    reveal_with_fuel(is_ascii_text, 29);
    reveal_with_fuel(starts_nowhere_from, 29);
    reveal_with_fuel(agrees_at, 2);
}

/// The fixed advice that the model is missing reads as such again, when the
/// model's name is ASCII and its lower-case form mentions neither trouble.
proof fn lemma_no_model_settles(model: Seq<char>)
    requires
        is_ascii_text(model),
        !says_unreachable(ascii_lower(model)),
        !says_no_model(ascii_lower(model)),
    ensures
        friendly_choice(lowercase(no_model_text(model)), no_model_text(model), model)
            == no_model_text(model),
{
    lemma_keywords_are_plain();
    lemma_head_starts_no_keyword();
    lemma_middle_starts_no_keyword();
    let pa = "No model called "@;
    let pb = ". Pull it with: ollama pull "@;
    lemma_ascii_concat(pa, model);
    lemma_ascii_concat(pa + model, pb);
    lemma_ascii_concat(pa + model + pb, model);
    let text = no_model_text(model);
    assert(is_ascii_text(text));
    let a = advice_head();
    let b = advice_middle();
    let lm = ascii_lower(model);
    assert(ascii_lower(text) =~= (a + lm) + (b + lm));
    lemma_keyword_in_advice(a, b, lm, "connect"@);
    lemma_keyword_in_advice(a, b, lm, "refused"@);
    lemma_keyword_in_advice(a, b, lm, "dns"@);
    lemma_keyword_in_advice(a, b, lm, "not found"@);
    lemma_keyword_in_advice(a, b, lm, "no such model"@);
}

/// Telling a person what went wrong twice tells them the same thing: the
/// advice `friendly` gives reads as itself again. This holds for a model whose
/// name is ASCII and whose lower-case form mentions neither a failed
/// connection nor a missing model.
pub proof fn lemma_friendly_settles(raw: Seq<char>, model: Seq<char>)
    requires
        is_ascii_text(model),
        !says_unreachable(lowercase(model)),
        !says_no_model(lowercase(model)),
    ensures
        friendly_text(friendly_text(raw, model), model) == friendly_text(raw, model),
{
    let low = lowercase(raw);
    if says_unreachable(low) {
        lemma_not_running_settles(model);
    } else if says_no_model(low) {
        lemma_no_model_settles(model);
    }
}

/// The advice given when the server has no model called `model`.
pub fn no_model_message(model: &str) -> (m: String)
    ensures
        m@ == no_model_text(model@),
{
    let mut m = String::new();
    m.append("No model called ");
    m.append(model);
    m.append(". Pull it with: ollama pull ");
    m.append(model);
    m
}

/// Decides what a person is told for the raw error text `raw`, given its
/// lower-cased form `low`.
pub fn friendly_from(low: &str, raw: &str, model: &str) -> (m: String)
    ensures
        m@ == friendly_choice(low@, raw@, model@),
{
    if contains(low, "connect") || contains(low, "refused") || contains(low, "dns") {
        let mut m = String::new();
        m.append("Ollama isn't running. Start it, then try again.");
        m
    } else if contains(low, "not found") || contains(low, "no such model") {
        no_model_message(model)
    } else {
        let mut m = String::new();
        m.append(raw);
        m
    }
}

/// Turns transport noise into something a person can act on.
pub fn friendly(raw: &str, model: &str) -> (m: String)
    ensures
        m@ == friendly_text(raw@, model@),
{
    let low = to_lowercase(raw);
    friendly_from(low.as_str(), raw, model)
}

/// Whether an HTTP status code reports success (the 2xx class).
pub open spec fn is_success_code(code: u16) -> bool {
    200 <= code <= 299
}

/// What a chat request's HTTP status means: nothing to report on success, the
/// pull advice on 404, otherwise the status as the server gave it.
pub open spec fn chat_status_text(code: u16, status: Seq<char>, model: Seq<char>) -> Option<
    Seq<char>,
> {
    if code == 404 {
        Some(no_model_text(model))
    } else if is_success_code(code) {
        None
    } else {
        Some(answered_text(status))
    }
}

/// The error to show for the HTTP status of a chat request, if any. `status`
/// is the status as text, such as `500 Internal Server Error`.
pub fn chat_status_error(code: u16, status: &str, model: &str) -> (e: Option<String>)
    ensures
        e.deep_view() == chat_status_text(code, status@, model@),
{
    if code == 404 {
        Some(no_model_message(model))
    } else if 200 <= code && code <= 299 {
        None
    } else {
        let mut m = String::new();
        m.append("Ollama answered ");
        m.append(status);
        Some(m)
    }
}

/// The error to show for the HTTP status of a pull request, if any: any status
/// outside the 2xx class is reported as the server gave it.
pub fn pull_status_error(code: u16, status: &str) -> (e: Option<String>)
    ensures
        e.deep_view() == (if is_success_code(code) {
            None
        } else {
            Some(answered_text(status@))
        }),
{
    if 200 <= code && code <= 299 {
        None
    } else {
        let mut m = String::new();
        m.append("Ollama answered ");
        m.append(status);
        Some(m)
    }
}

// ---------------------------------------------------------------------------
// Reading one line of a reply
// ---------------------------------------------------------------------------

/// How a streamed reply goes on after a line.
pub enum StreamEnd {
    /// Keep reading.
    Continue,
    /// The reply is complete.
    Done,
    /// The reply failed with this message.
    Failed(String),
}

/// `StreamEnd` with its message as characters.
pub enum StreamEndView {
    Continue,
    Done,
    Failed(Seq<char>),
}

impl View for StreamEnd {
    type V = StreamEndView;

    open spec fn view(&self) -> StreamEndView {
        match self {
            StreamEnd::Continue => StreamEndView::Continue,
            StreamEnd::Done => StreamEndView::Done,
            StreamEnd::Failed(m) => StreamEndView::Failed(m@),
        }
    }
}

/// What one line of a chat reply asks for: a token to show, then how the
/// reply goes on.
pub struct ChatStep {
    pub token: Option<String>,
    pub end: StreamEnd,
}

pub struct ChatStepView {
    pub token: Option<Seq<char>>,
    pub end: StreamEndView,
}

impl View for ChatStep {
    type V = ChatStepView;

    open spec fn view(&self) -> ChatStepView {
        ChatStepView { token: self.token.deep_view(), end: self.end@ }
    }
}

/// A line that asks for nothing.
pub open spec fn quiet_chat() -> ChatStepView {
    ChatStepView { token: None, end: StreamEndView::Continue }
}

/// The step for a chat line whose `error`, `message.content` and `done`
/// fields read as given: an error ends the reply with its friendly message;
/// otherwise non-empty content is a token, and `done: true` ends the reply.
pub open spec fn chat_reply(
    error: Option<Seq<char>>,
    content: Option<Seq<char>>,
    done: Option<bool>,
    model: Seq<char>,
) -> ChatStepView {
    match error {
        Some(e) => ChatStepView { token: None, end: StreamEndView::Failed(friendly_text(e, model)) },
        None => ChatStepView {
            token: match content {
                Some(c) => if c.len() > 0 {
                    Some(c)
                } else {
                    None
                },
                None => None,
            },
            end: if done == Some(true) {
                StreamEndView::Done
            } else {
                StreamEndView::Continue
            },
        },
    }
}

/// Decides what a chat line asks for, given its `error` (as a string),
/// `message.content` (as a string) and `done` (as a boolean) fields.
pub fn chat_step(
    error: Option<String>,
    content: Option<String>,
    done: Option<bool>,
    model: &str,
) -> (s: ChatStep)
    ensures
        s@ == chat_reply(error.deep_view(), content.deep_view(), done, model@),
{
    match error {
        Some(e) => ChatStep { token: None, end: StreamEnd::Failed(friendly(e.as_str(), model)) },
        None => {
            let token = match content {
                Some(c) => if c.as_str().is_empty() {
                    None
                } else {
                    Some(c)
                },
                None => None,
            };
            let end = match done {
                Some(true) => StreamEnd::Done,
                _ => StreamEnd::Continue,
            };
            ChatStep { token, end }
        },
    }
}

/// What a trimmed line of a chat reply asks for: nothing when it is empty or
/// not JSON; otherwise the step for the `error`, `message.content` and `done`
/// fields that `serde_json` reads out of it.
pub open spec fn chat_line(line: Seq<char>, model: Seq<char>) -> ChatStepView {
    if line.len() == 0 || !json_accepts(line) {
        quiet_chat()
    } else {
        chat_reply(
            json_str_at(line, "/error"@),
            json_str_at(line, "/message/content"@),
            json_bool_at(line, "/done"@),
            model,
        )
    }
}

/// Reads one trimmed line of a chat reply. An empty line, or one that is not
/// JSON, asks for nothing; any other line is decided by `chat_step` on the
/// fields that `serde_json` reads out of it.
pub fn read_chat_line(line: &str, model: &str) -> (s: ChatStep)
    ensures
        s@ == chat_line(line@, model@),
{
    if line.is_empty() || !is_json(line) {
        return ChatStep { token: None, end: StreamEnd::Continue };
    }
    let error = read_json_str(line, "/error");
    let content = read_json_str(line, "/message/content");
    let done = read_json_bool(line, "/done");
    chat_step(error, content, done, model)
}

/// Progress of a pull: the status text and the byte counts, when given.
pub struct PullProgress {
    pub status: String,
    pub completed: Option<u64>,
    pub total: Option<u64>,
}

/// What one line of a pull's progress stream asks for.
pub struct PullStep {
    pub progress: Option<PullProgress>,
    pub end: StreamEnd,
}

pub struct PullStepView {
    pub progress: Option<(Seq<char>, Option<u64>, Option<u64>)>,
    pub end: StreamEndView,
}

impl View for PullStep {
    type V = PullStepView;

    open spec fn view(&self) -> PullStepView {
        PullStepView {
            progress: match self.progress {
                Some(p) => Some((p.status@, p.completed, p.total)),
                None => None,
            },
            end: self.end@,
        }
    }
}

/// A pull line that asks for nothing.
pub open spec fn quiet_pull() -> PullStepView {
    PullStepView { progress: None, end: StreamEndView::Continue }
}

/// The step for a pull line whose `error`, `status`, `completed` and `total`
/// fields read as given: an error ends the pull with the error as it came;
/// otherwise progress is reported (status empty when absent), and the status
/// `success` ends the pull.
pub open spec fn pull_reply(
    error: Option<Seq<char>>,
    status: Option<Seq<char>>,
    completed: Option<u64>,
    total: Option<u64>,
) -> PullStepView {
    match error {
        Some(e) => PullStepView { progress: None, end: StreamEndView::Failed(e) },
        None => PullStepView {
            progress: Some(
                (
                    match status {
                        Some(s) => s,
                        None => Seq::<char>::empty(),
                    },
                    completed,
                    total,
                ),
            ),
            end: if status == Some("success"@) {
                StreamEndView::Done
            } else {
                StreamEndView::Continue
            },
        },
    }
}

/// Decides what a pull line asks for, given its fields as read.
pub fn pull_step(
    error: Option<String>,
    status: Option<String>,
    completed: Option<u64>,
    total: Option<u64>,
) -> (s: PullStep)
    ensures
        s@ == pull_reply(error.deep_view(), status.deep_view(), completed, total),
{
    match error {
        Some(e) => PullStep { progress: None, end: StreamEnd::Failed(e) },
        None => {
            let (text, finished) = match status {
                Some(st) => {
                    let fin = same_text(st.as_str(), "success");
                    (st, fin)
                },
                None => (String::new(), false),
            };
            let end = if finished {
                StreamEnd::Done
            } else {
                StreamEnd::Continue
            };
            PullStep { progress: Some(PullProgress { status: text, completed, total }), end }
        },
    }
}

/// What a trimmed line of a pull's progress stream asks for: nothing when it
/// is empty or not JSON; otherwise the step for the `error`, `status`,
/// `completed` and `total` fields that `serde_json` reads out of it.
pub open spec fn pull_line(line: Seq<char>) -> PullStepView {
    if line.len() == 0 || !json_accepts(line) {
        quiet_pull()
    } else {
        pull_reply(
            json_str_at(line, "/error"@),
            json_str_at(line, "/status"@),
            json_u64_at(line, "/completed"@),
            json_u64_at(line, "/total"@),
        )
    }
}

/// Reads one trimmed line of a pull's progress stream. An empty line, or one
/// that is not JSON, asks for nothing; any other line is decided by
/// `pull_step` on the fields that `serde_json` reads out of it.
pub fn read_pull_line(line: &str) -> (s: PullStep)
    ensures
        s@ == pull_line(line@),
{
    if line.is_empty() || !is_json(line) {
        return PullStep { progress: None, end: StreamEnd::Continue };
    }
    let error = read_json_str(line, "/error");
    let status = read_json_str(line, "/status");
    let completed = read_json_u64(line, "/completed");
    let total = read_json_u64(line, "/total");
    pull_step(error, status, completed, total)
}

// ---------------------------------------------------------------------------
// The models on the server
// ---------------------------------------------------------------------------

/// The names that are present, in order.
pub open spec fn present_names(found: Seq<Option<Seq<char>>>) -> Seq<Seq<char>>
    decreases found.len(),
{
    if found.len() == 0 {
        Seq::empty()
    } else {
        let rest = present_names(found.drop_last());
        match found.last() {
            Some(n) => rest.push(n),
            None => rest,
        }
    }
}

/// Keeps the names that were found, in order.
pub fn collect_names(found: Vec<Option<String>>) -> (names: Vec<String>)
    ensures
        names.deep_view() == present_names(found.deep_view()),
{
    let mut names: Vec<String> = Vec::new();
    let n = found.len();
    for i in 0..n
        invariant
            n == found@.len(),
            names.deep_view() == present_names(found.deep_view().take(i as int)),
    {
        assert(found.deep_view().take(i + 1).drop_last() == found.deep_view().take(i as int));
        match &found[i] {
            Some(name) => {
                names.push(name.clone());
            },
            None => {},
        }
        assert(names.deep_view() =~= present_names(found.deep_view().take(i + 1)));
    }
    assert(found.deep_view().take(n as int) == found.deep_view());
    names
}

/// Where the name of the `i`-th model stands in a `/api/tags` answer.
pub open spec fn name_pointer(i: nat) -> Seq<char> {
    "/models/"@ + decimal(i) + "/name"@
}

/// What the `name` of each entry of the `models` array of `body` reads as.
pub open spec fn name_reads(body: Seq<char>, n: nat) -> Seq<Option<Seq<char>>> {
    Seq::new(n, |i: int| json_str_at(body, name_pointer(i as nat)))
}

/// The names of the models listed in the `/api/tags` answer `body`: the `name`
/// string of each entry of its `models` array, in order, skipping entries
/// without one; none when there is no such array.
pub open spec fn tag_names(body: Seq<char>) -> Seq<Seq<char>> {
    match json_array_len_at(body, "/models"@) {
        Some(n) => present_names(name_reads(body, n as nat)),
        None => Seq::empty(),
    }
}

/// The JSON Pointer of the name of the `i`-th model in a `/api/tags` answer.
fn name_pointer_text(i: usize) -> (p: String)
    ensures
        p@ == name_pointer(i as nat),
{
    let mut p = String::new();
    p.append("/models/");
    let digits = decimal_text(i);
    p.append(digits.as_str());
    p.append("/name");
    p
}

/// The names of the models listed in the `/api/tags` answer `body`: the `name`
/// string of each entry of its `models` array, skipping entries without one;
/// none when the body is not JSON or has no such array.
pub fn model_names(body: &str) -> (names: Vec<String>)
    ensures
        names.deep_view() == tag_names(body@),
        !json_accepts(body@) ==> names@.len() == 0,
{
    match read_json_array_len(body, "/models") {
        None => {
            let names: Vec<String> = Vec::new();
            assert(names.deep_view() =~= Seq::<Seq<char>>::empty());
            names
        },
        Some(n) => {
            let mut found: Vec<Option<String>> = Vec::new();
            for i in 0..n
                invariant
                    found.deep_view() =~= name_reads(body@, i as nat),
            {
                let ghost before = found.deep_view();
                let pointer = name_pointer_text(i);
                let name = read_json_str(body, pointer.as_str());
                assert(name.deep_view() == json_str_at(body@, name_pointer(i as nat)));
                found.push(name);
                assert(found.deep_view() =~= before.push(name.deep_view()));
                assert(name_reads(body@, (i + 1) as nat) =~= name_reads(body@, i as nat).push(
                    json_str_at(body@, name_pointer(i as nat)),
                ));
            }
            collect_names(found)
        },
    }
}

/// Whether `model` is among `models`.
pub fn contains_model(models: &[String], model: &str) -> (b: bool)
    ensures
        b == exists|i: int| 0 <= i < models@.len() && (#[trigger] models@[i])@ == model@,
{
    let n = models.len();
    let mut i: usize = 0;
    while i < n
        invariant
            n == models@.len(),
            i <= n,
            forall|j: int| 0 <= j < i ==> (#[trigger] models@[j])@ != model@,
        decreases n - i,
    {
        if same_text(models[i].as_str(), model) {
            return true;
        }
        i = i + 1;
    }
    false
}


// ---------------------------------------------------------------------------
// Framing the stream into lines
// ---------------------------------------------------------------------------

/// The position of the first line feed in `s`, if there is one.
pub open spec fn first_newline(s: Seq<char>) -> Option<int>
    decreases s.len(),
{
    if s.len() == 0 {
        None
    } else if s[0] == '\n' {
        Some(0)
    } else {
        match first_newline(s.drop_first()) {
            Some(k) => Some(k + 1),
            None => None,
        }
    }
}

/// What `first_newline` finds is the first line feed, and nothing else is.
pub proof fn lemma_first_newline(s: Seq<char>)
    ensures
        match first_newline(s) {
            Some(k) => 0 <= k < s.len() && s[k] == '\n' && forall|j: int|
                0 <= j < k ==> s[j] != '\n',
            None => forall|j: int| 0 <= j < s.len() ==> s[j] != '\n',
        },
    decreases s.len(),
{
    if s.len() > 0 && s[0] != '\n' {
        lemma_first_newline(s.drop_first());
        assert forall|j: int| 1 <= j < s.len() implies s[j] == s.drop_first()[j - 1] by {}
    }
}

/// A line feed at `k` with none before it is what `first_newline` finds.
proof fn lemma_first_newline_at(s: Seq<char>, k: int)
    requires
        0 <= k < s.len(),
        s[k] == '\n',
        forall|j: int| 0 <= j < k ==> s[j] != '\n',
    ensures
        first_newline(s) == Some(k),
    decreases k,
{
    if k > 0 {
        lemma_first_newline_at(s.drop_first(), k - 1);
    }
}

/// With no line feed in `s`, `first_newline` finds none.
proof fn lemma_first_newline_none(s: Seq<char>)
    requires
        forall|j: int| 0 <= j < s.len() ==> s[j] != '\n',
    ensures
        first_newline(s) is None,
    decreases s.len(),
{
    if s.len() > 0 {
        lemma_first_newline_none(s.drop_first());
    }
}

/// The complete lines at the front of `s`, each trimmed, in order. Text after
/// the last line feed is not yet a line.
pub open spec fn complete_lines(s: Seq<char>) -> Seq<Seq<char>>
    decreases s.len(),
{
    match first_newline(s) {
        Some(k) => {
            proof {
                lemma_first_newline(s);
            }
            seq![trimmed(s.take(k + 1))] + complete_lines(s.skip(k + 1))
        },
        None => seq![],
    }
}

/// What is left of `s` after its complete lines: the start of a line still arriving.
pub open spec fn partial_line(s: Seq<char>) -> Seq<char>
    decreases s.len(),
{
    match first_newline(s) {
        Some(k) => {
            proof {
                lemma_first_newline(s);
            }
            partial_line(s.skip(k + 1))
        },
        None => s,
    }
}

/// Collects the text of a newline-delimited stream whose chunks may end in
/// the middle of a line, and hands it back one line at a time.
pub struct LineFramer {
    buf: Vec<char>,
}

impl View for LineFramer {
    type V = Seq<char>;

    /// The text received and not yet handed back.
    closed spec fn view(&self) -> Seq<char> {
        self.buf@
    }
}

impl LineFramer {
    /// A framer that has received nothing.
    pub fn new() -> (f: LineFramer)
        ensures
            f@ == Seq::<char>::empty(),
    {
        LineFramer { buf: Vec::new() }
    }

    /// Adds a chunk of the stream, decoded as UTF-8 with invalid bytes replaced.
    pub fn push_bytes(&mut self, bytes: &[u8])
        ensures
            final(self)@ == old(self)@ + utf8_lossy(bytes@),
    {
        let text = decode_lossy(bytes);
        let mut more = chars_of(text.as_str());
        self.buf.append(&mut more);
    }

    /// Takes the next complete line out of the framer, trimmed of whitespace at
    /// both ends (an empty or all-blank line comes back empty). Returns `None`,
    /// and keeps everything, when no complete line has arrived yet.
    pub fn next_line(&mut self) -> (line: Option<String>)
        ensures
            match first_newline(old(self)@) {
                Some(k) => line matches Some(l) && l@ == trimmed(old(self)@.take(k + 1))
                    && final(self)@ == old(self)@.skip(k + 1),
                None => line is None && final(self)@ == old(self)@,
            },
    {
        let n = self.buf.len();
        let mut i: usize = 0;
        while i < n
            invariant
                n == self.buf@.len(),
                self.buf@ == old(self).buf@,
                i <= n,
                forall|j: int| 0 <= j < i ==> self.buf@[j] != '\n',
            decreases n - i,
        {
            if self.buf[i] == '\n' {
                proof {
                    lemma_first_newline_at(self.buf@, i as int);
                }
                let ghost before = self.buf@;
                let rest = self.buf.split_off(i + 1);
                let line = trim_chars(self.buf.as_slice());
                assert(self.buf@ == before.take(i + 1));
                assert(rest@ == before.skip(i + 1));
                self.buf = rest;
                return Some(line);
            }
            i = i + 1;
        }
        proof {
            lemma_first_newline_none(self.buf@);
        }
        None
    }
}

impl LineFramer {
    /// Takes every complete line out of the framer, in order, each trimmed;
    /// what follows the last line feed stays for the next chunk.
    pub fn take_lines(&mut self) -> (lines: Vec<String>)
        ensures
            lines.deep_view() == complete_lines(old(self)@),
            final(self)@ == partial_line(old(self)@),
    {
        let mut lines: Vec<String> = Vec::new();
        loop
            invariant
                lines.deep_view() + complete_lines(self@) == complete_lines(old(self)@),
                partial_line(self@) == partial_line(old(self)@),
            decreases self@.len(),
        {
            let ghost before = self@;
            proof {
                lemma_first_newline(before);
            }
            match self.next_line() {
                Some(line) => {
                    let ghost prev = lines.deep_view();
                    let ghost got = line@;
                    assert(complete_lines(before) == seq![got] + complete_lines(self@));
                    lines.push(line);
                    assert(lines.deep_view() =~= prev.push(got));
                    assert(prev.push(got) + complete_lines(self@) =~= prev + (seq![got]
                        + complete_lines(self@)));
                },
                None => {
                    assert(complete_lines(before) == Seq::<Seq<char>>::empty());
                    assert(lines.deep_view() + complete_lines(self@) == lines.deep_view());
                    return lines;
                },
            }
        }
    }
}

/// Once `x` has a line feed, appending more text changes neither where the
/// first line ends nor what it holds.
proof fn lemma_first_newline_append(x: Seq<char>, y: Seq<char>)
    ensures
        first_newline(x) matches Some(k) ==> first_newline(x + y) == Some(k),
        first_newline(x) is None ==> match first_newline(y) {
            Some(k) => first_newline(x + y) == Some(x.len() + k),
            None => first_newline(x + y) is None,
        },
{
    lemma_first_newline(x);
    lemma_first_newline(y);
    let xy = x + y;
    match first_newline(x) {
        Some(k) => {
            assert forall|j: int| 0 <= j < k implies xy[j] != '\n' by {}
            lemma_first_newline_at(xy, k);
        },
        None => {
            match first_newline(y) {
                Some(k) => {
                    assert forall|j: int| 0 <= j < x.len() + k implies xy[j] != '\n' by {
                        if j >= x.len() {
                            assert(xy[j] == y[j - x.len()]);
                        }
                    }
                    lemma_first_newline_at(xy, x.len() + k);
                },
                None => {
                    assert forall|j: int| 0 <= j < xy.len() implies xy[j] != '\n' by {
                        if j >= x.len() {
                            assert(xy[j] == y[j - x.len()]);
                        }
                    }
                    lemma_first_newline_none(xy);
                },
            }
        },
    }
}

/// Where a stream is cut into chunks does not change the lines it yields: the
/// lines of `x + y` are the lines of `x`, then the lines of what was left of
/// `x` followed by `y`; and the same text is left over either way.
pub proof fn lemma_chunking_is_invisible(x: Seq<char>, y: Seq<char>)
    ensures
        complete_lines(x + y) == complete_lines(x) + complete_lines(partial_line(x) + y),
        partial_line(x + y) == partial_line(partial_line(x) + y),
    decreases x.len(),
{
    lemma_first_newline(x);
    lemma_first_newline_append(x, y);
    match first_newline(x) {
        Some(k) => {
            let xy = x + y;
            assert(xy.take(k + 1) == x.take(k + 1));
            assert(xy.skip(k + 1) == x.skip(k + 1) + y);
            lemma_chunking_is_invisible(x.skip(k + 1), y);
            assert(complete_lines(x + y) == seq![trimmed(x.take(k + 1))] + complete_lines(
                x.skip(k + 1) + y,
            ));
            assert(complete_lines(x) == seq![trimmed(x.take(k + 1))] + complete_lines(
                x.skip(k + 1),
            ));
        },
        None => {
            assert(complete_lines(x) == Seq::<Seq<char>>::empty());
            assert(complete_lines(x) + complete_lines(partial_line(x) + y) == complete_lines(
                x + y,
            ));
        },
    }
}

// ---------------------------------------------------------------------------
// What the readers do, field by field
// ---------------------------------------------------------------------------

/// A chat line without an error shows its `message.content` as a token
/// exactly when that content is a non-empty string, whitespace or not, and
/// ends the reply exactly when its `done` field is `true`.
pub proof fn lemma_chat_line_fields(line: Seq<char>, model: Seq<char>)
    requires
        line.len() > 0,
        json_accepts(line),
        json_str_at(line, "/error"@) is None,
    ensures
        chat_line(line, model).token == (match json_str_at(line, "/message/content"@) {
            Some(c) => if c.len() > 0 {
                Some(c)
            } else {
                None
            },
            None => None,
        }),
        forall|c: Seq<char>|
            json_str_at(line, "/message/content"@) == Some(c) && c.len() > 0 ==> chat_line(
                line,
                model,
            ).token == Some(c),
        (chat_line(line, model).end is Done) == (json_bool_at(line, "/done"@) == Some(true)),
        (chat_line(line, model).end is Continue) == (json_bool_at(line, "/done"@) != Some(true)),
{
}

/// A chat line with an error ends the reply with the error's friendly
/// message and shows no token, whatever else it holds.
pub proof fn lemma_chat_line_error(line: Seq<char>, model: Seq<char>, e: Seq<char>)
    requires
        line.len() > 0,
        json_accepts(line),
        json_str_at(line, "/error"@) == Some(e),
    ensures
        chat_line(line, model).token is None,
        chat_line(line, model).end == StreamEndView::Failed(friendly_text(e, model)),
{
}

/// A pull line without an error reports its status (empty when absent) and
/// its `completed` and `total` counts each as read, independently of one
/// another, and ends the pull exactly when the status is `success`.
pub proof fn lemma_pull_line_fields(line: Seq<char>)
    requires
        line.len() > 0,
        json_accepts(line),
        json_str_at(line, "/error"@) is None,
    ensures
        pull_line(line).progress matches Some(p) && p.1 == json_u64_at(line, "/completed"@)
            && p.2 == json_u64_at(line, "/total"@) && p.0 == (match json_str_at(line, "/status"@) {
            Some(st) => st,
            None => Seq::<char>::empty(),
        }),
        (pull_line(line).end is Done) == (json_str_at(line, "/status"@) == Some("success"@)),
        !(pull_line(line).end is Failed),
{
}

/// A pull line with an error ends the pull with that error as it came, and
/// reports no progress.
pub proof fn lemma_pull_line_error(line: Seq<char>, e: Seq<char>)
    requires
        line.len() > 0,
        json_accepts(line),
        json_str_at(line, "/error"@) == Some(e),
    ensures
        pull_line(line).progress is None,
        pull_line(line).end == StreamEndView::Failed(e),
{
}

/// A name is kept exactly when some entry carries it.
proof fn lemma_present_names_members(found: Seq<Option<Seq<char>>>, x: Seq<char>)
    ensures
        present_names(found).contains(x) <==> exists|j: int|
            0 <= j < found.len() && found[j] == Some(x),
    decreases found.len(),
{
    if found.len() > 0 {
        let rest = found.drop_last();
        lemma_present_names_members(rest, x);
        if present_names(found).contains(x) {
            match found.last() {
                Some(n) => {
                    if n == x {
                        assert(found[found.len() - 1] == Some(x));
                    } else {
                        let i = choose|i: int|
                            0 <= i < present_names(found).len() && present_names(found)[i] == x;
                        assert(present_names(rest)[i] == x);
                        let j = choose|j: int| 0 <= j < rest.len() && rest[j] == Some(x);
                        assert(found[j] == Some(x));
                    }
                },
                None => {
                    let j = choose|j: int| 0 <= j < rest.len() && rest[j] == Some(x);
                    assert(found[j] == Some(x));
                },
            }
        } else {
            let pf = present_names(found);
            let pr = present_names(rest);
            assert(pf == pr || exists|n: Seq<char>| pf == pr.push(n));
            if pr.contains(x) {
                let i = choose|i: int| 0 <= i < pr.len() && pr[i] == x;
                match found.last() {
                    Some(n) => {
                        assert(pf == pr.push(n));
                        assert(pf[i] == x);
                    },
                    None => {},
                }
                assert(pf.contains(x));
            }
            assert forall|j: int| 0 <= j < found.len() implies found[j] != Some(x) by {
                if j < found.len() - 1 {
                    assert(rest[j] == found[j]);
                } else {
                    match found.last() {
                        Some(n) => {
                            assert(pf == pr.push(n));
                            assert(pf[pr.len() as int] == n);
                        },
                        None => {},
                    }
                }
            }
        }
    }
}

/// Every entry of the `models` array is read: a name is listed exactly when
/// some entry, at any index of the array, has it as its `name` string.
pub proof fn lemma_every_model_listed(body: Seq<char>, n: usize, x: Seq<char>)
    requires
        json_array_len_at(body, "/models"@) == Some(n),
    ensures
        tag_names(body).contains(x) <==> exists|i: int|
            0 <= i < n && json_str_at(body, "/models/"@ + #[trigger] decimal(i as nat) + "/name"@) == Some(x),
{
    let found = name_reads(body, n as nat);
    lemma_present_names_members(found, x);
    if tag_names(body).contains(x) {
        let j = choose|j: int| 0 <= j < found.len() && found[j] == Some(x);
        assert(json_str_at(body, "/models/"@ + decimal(j as nat) + "/name"@) == Some(x));
    }
    if exists|i: int|
        0 <= i < n && json_str_at(body, "/models/"@ + #[trigger] decimal(i as nat) + "/name"@)
            == Some(x) {
        let i = choose|i: int|
            0 <= i < n && json_str_at(body, "/models/"@ + #[trigger] decimal(i as nat) + "/name"@)
                == Some(x);
        assert(found[i] == Some(x));
    }
}

/// Without a `models` array there are no names.
pub proof fn lemma_no_models_no_names(body: Seq<char>)
    requires
        json_array_len_at(body, "/models"@) is None,
    ensures
        tag_names(body).len() == 0,
{
}

} // verus!

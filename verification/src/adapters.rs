//! Backend adapters' shared logic: token estimation, the system-prompt split,
//! line framing of a byte stream, and the metering of each backend's event
//! stream into completion deltas.

use vstd::prelude::*;
use vstd::string::{StrSliceExecFns, StringExecFns};

use crate::text::{chars_of, has_prefix, str_eq, string_of, starts_with, trim, trim_chars};
use crate::types::{ChatMessage, CompletionDelta};

verus! {

/// Rough token estimate: a quarter of the characters, at least one.
pub open spec fn estimated_tokens(text: Seq<char>) -> nat {
    if text.len() / 4 >= 1 {
        text.len() / 4
    } else {
        1
    }
}

/// Rough token estimate when a backend does not report exact counts
/// (about 4 characters per token).
pub fn estimate_tokens(text: &str) -> (r: u64)
    ensures
        r == estimated_tokens(text@),
{
    let n: usize = text.unicode_len();
    let q: u64 = (n / 4) as u64;
    if q >= 1 {
        q
    } else {
        1
    }
}

/// The system prompt of a conversation: the contents of its system messages,
/// in order, joined by newlines (an empty one adds no separator).
pub open spec fn system_text(s: Seq<ChatMessage>) -> Seq<char>
    decreases s.len(),
{
    if s.len() == 0 {
        Seq::empty()
    } else {
        let p = system_text(s.drop_last());
        if s.last().role@ == "system"@ {
            if p.len() == 0 {
                s.last().content@
            } else {
                p + seq!['\n'] + s.last().content@
            }
        } else {
            p
        }
    }
}

/// The messages of a conversation that are not system messages, in order.
pub open spec fn turns(s: Seq<ChatMessage>) -> Seq<ChatMessage>
    decreases s.len(),
{
    if s.len() == 0 {
        Seq::empty()
    } else if s.last().role@ == "system"@ {
        turns(s.drop_last())
    } else {
        turns(s.drop_last()).push(s.last())
    }
}

/// Split chat messages into the system prompt and the remaining turns.
pub fn split_system(messages: &[ChatMessage]) -> (r: (String, Vec<&ChatMessage>))
    ensures
        r.0@ == system_text(messages@),
        r.1@.map_values(|m: &ChatMessage| *m) == turns(messages@),
{
    let mut system = String::new();
    let mut rest: Vec<&ChatMessage> = Vec::new();
    let mut i: usize = 0;
    while i < messages.len()
        invariant
            i <= messages@.len(),
            system@ == system_text(messages@.subrange(0, i as int)),
            rest@.map_values(|m: &ChatMessage| *m) == turns(messages@.subrange(0, i as int)),
        decreases messages@.len() - i,
    {
        let m = &messages[i];
        proof {
            reveal_strlit("\n");
            assert(messages@.subrange(0, i + 1).drop_last() =~= messages@.subrange(0, i as int));
            assert(messages@.subrange(0, i + 1).last() == *m);
        }
        if str_eq(m.role.as_str(), "system") {
            if !system.as_str().is_empty() {
                system.append("\n");
            }
            system.append(m.content.as_str());
        } else {
            rest.push(m);
        }
        i = i + 1;
        assert(rest@.map_values(|m: &ChatMessage| *m) =~= turns(messages@.subrange(0, i as int)));
    }
    assert(messages@.subrange(0, messages@.len() as int) =~= messages@);
    (system, rest)
}

/// Index of the first `b` in `s`.
pub open spec fn first_byte(s: Seq<u8>, b: u8) -> Option<int>
    decreases s.len(),
{
    if s.len() == 0 {
        None
    } else if s[0] == b {
        Some(0)
    } else {
        match first_byte(s.drop_first(), b) {
            Some(i) => Some(i + 1),
            None => None,
        }
    }
}

proof fn lemma_first_byte(s: Seq<u8>, b: u8, i: int)
    requires
        0 <= i <= s.len(),
        forall|k: int| 0 <= k < i ==> s[k] != b,
    ensures
        i < s.len() && s[i] == b ==> first_byte(s, b) == Some(i),
        i == s.len() ==> first_byte(s, b) is None,
    decreases i,
{
    if i > 0 {
        lemma_first_byte(s.drop_first(), b, i - 1);
    }
}

/// Bytes received from a backend, cut into lines at `\n`.
#[derive(Debug)]
pub struct LineBuffer {
    pub buf: Vec<u8>,
}

impl LineBuffer {
    pub fn new() -> (r: LineBuffer)
        ensures
            r.buf@.len() == 0,
    {
        LineBuffer { buf: Vec::new() }
    }

    /// Append received bytes.
    pub fn extend(&mut self, chunk: &[u8])
        ensures
            final(self).buf@ == old(self).buf@ + chunk@,
    {
        let mut i: usize = 0;
        while i < chunk.len()
            invariant
                i <= chunk@.len(),
                self.buf@ == old(self).buf@ + chunk@.subrange(0, i as int),
            decreases chunk@.len() - i,
        {
            self.buf.push(chunk[i]);
            i = i + 1;
            assert(self.buf@ =~= old(self).buf@ + chunk@.subrange(0, i as int));
        }
        assert(chunk@.subrange(0, chunk@.len() as int) =~= chunk@);
    }

    /// Take the next complete line (without its `\n`), if one has arrived.
    pub fn next_line(&mut self) -> (r: Option<Vec<u8>>)
        ensures
            match first_byte(old(self).buf@, 10) {
                Some(i) => r matches Some(line) && line@ == old(self).buf@.take(i)
                    && final(self).buf@ == old(self).buf@.skip(i + 1),
                None => r is None && final(self).buf@ == old(self).buf@,
            },
    {
        let mut i: usize = 0;
        while i < self.buf.len() && self.buf[i] != 10
            invariant
                i <= self.buf@.len(),
                forall|k: int| 0 <= k < i ==> self.buf@[k] != 10,
            decreases self.buf@.len() - i,
        {
            i = i + 1;
        }
        proof {
            lemma_first_byte(self.buf@, 10, i as int);
        }
        if i == self.buf.len() {
            return None;
        }
        let mut line: Vec<u8> = Vec::new();
        let mut rest: Vec<u8> = Vec::new();
        let mut k: usize = 0;
        while k < self.buf.len()
            invariant
                i < self.buf@.len(),
                k <= self.buf@.len(),
                k <= i ==> line@ == self.buf@.take(k as int) && rest@.len() == 0,
                k > i ==> line@ == self.buf@.take(i as int) && rest@ == self.buf@.subrange(
                    i + 1,
                    k as int,
                ),
            decreases self.buf@.len() - k,
        {
            if k < i {
                line.push(self.buf[k]);
                assert(line@ =~= self.buf@.take(k + 1));
            } else if k > i {
                rest.push(self.buf[k]);
                assert(rest@ =~= self.buf@.subrange(i + 1, k + 1));
            }
            k = k + 1;
        }
        assert(rest@ =~= self.buf@.skip(i + 1));
        self.buf = rest;
        Some(line)
    }
}

/// How many tokens an Anthropic request may produce when the caller sets no
/// limit (the Messages API requires one).
pub const ANTHROPIC_DEFAULT_MAX_TOKENS: u32 = 1024;

/// The `max_tokens` of an Anthropic request: the caller's limit, else the
/// default.
pub fn anthropic_max_tokens(requested: Option<u32>) -> (r: u32)
    ensures
        r == match requested {
            Some(n) => n,
            None => ANTHROPIC_DEFAULT_MAX_TOKENS,
        },
{
    match requested {
        Some(n) => n,
        None => ANTHROPIC_DEFAULT_MAX_TOKENS,
    }
}

/// The text of bytes decoded as UTF-8, invalid sequences replaced.
pub uninterp spec fn utf8_lossy(bytes: Seq<u8>) -> Seq<char>;

/// `String::from_utf8_lossy`: the UTF-8 text of `bytes`, each invalid
/// sequence replaced by U+FFFD. On valid UTF-8 it is the ordinary decoding
/// (std documents that valid input comes back as the same text); how
/// invalid sequences are replaced is named, not stated.
#[verifier::external_body]
fn lossy_text(bytes: &[u8]) -> (r: String)
    ensures
        r@ == utf8_lossy(bytes@),
        vstd::utf8::valid_utf8(bytes@) ==> r@ == vstd::utf8::decode_utf8(bytes@),
{
    String::from_utf8_lossy(bytes).into_owned()
}

/// A received line as text, trimmed.
pub fn line_text(line: &[u8]) -> (r: String)
    ensures
        r@ == trim(utf8_lossy(line@)),
        vstd::utf8::valid_utf8(line@) ==> r@ == trim(vstd::utf8::decode_utf8(line@)),
{
    let t = lossy_text(line);
    let v = chars_of(t.as_str());
    string_of(trim_chars(v.as_slice()).as_slice())
}

/// The payload of a server-sent-events `data:` line, trimmed.
pub open spec fn sse_payload(line: Seq<char>) -> Option<Seq<char>> {
    let t = trim(line);
    if starts_with(t, "data:"@) {
        Some(trim(t.skip(5)))
    } else {
        None
    }
}

/// The payload of a server-sent-events line, or `None` for other lines.
pub fn sse_data(line: &str) -> (r: Option<String>)
    ensures
        match sse_payload(line@) {
            Some(p) => r matches Some(d) && d@ == p,
            None => r is None,
        },
{
    let t = trim_chars(chars_of(line).as_slice());
    let pfx = chars_of("data:");
    proof {
        reveal_strlit("data:");
    }
    if !has_prefix(t.as_slice(), pfx.as_slice()) {
        return None;
    }
    let mut rest: Vec<char> = Vec::new();
    let mut k: usize = 5;
    while k < t.len()
        invariant
            5 <= k <= t@.len(),
            rest@ == t@.subrange(5, k as int),
        decreases t@.len() - k,
    {
        rest.push(t[k]);
        k = k + 1;
        assert(rest@ =~= t@.subrange(5, k as int));
    }
    assert(rest@ =~= t@.skip(5));
    Some(string_of(trim_chars(rest.as_slice()).as_slice()))
}

/// Marker that ends a chat-completions event stream.
pub const DONE_MARKER: &'static str = "[DONE]";

/// Whether an event payload is the end-of-stream marker.
pub fn is_done_marker(data: &str) -> (r: bool)
    ensures
        r == (data@ == DONE_MARKER@),
{
    str_eq(data, DONE_MARKER)
}

/// What an adapter does with one backend event.
#[derive(Debug)]
pub enum AdapterStep {
    /// forward this delta and go on
    Send(CompletionDelta),
    /// forward this final delta and stop
    Finish(CompletionDelta),
    /// nothing to forward
    Skip,
}

/// An event of the Anthropic messages stream, as far as the adapter reads it.
#[derive(Debug)]
pub struct AnthropicEvent {
    pub kind: String,
    pub text: Option<String>,
    pub stop_reason: Option<String>,
    pub output_tokens: Option<u64>,
}

/// The first choice of a chat-completions stream chunk, with its usage.
#[derive(Debug)]
pub struct CompatChunk {
    pub content: Option<String>,
    pub finish_reason: Option<String>,
    pub completion_tokens: Option<u64>,
}

/// One line of an Ollama chat stream.
#[derive(Debug)]
pub struct OllamaChunk {
    pub content: String,
    pub done: bool,
    pub done_reason: Option<String>,
    pub eval_count: Option<u64>,
}

/// Token accounting of one backend stream: the running estimate, the count
/// reported to the consumer, and the finish reason.
#[derive(Debug)]
pub struct StreamMeter {
    pub estimated: u64,
    pub cumulative: u64,
    pub finish: String,
}

/// The count after adding a text delta: never below the running estimate.
pub open spec fn raised(cumulative: u64, estimated: u64) -> u64 {
    if cumulative < estimated {
        estimated
    } else {
        cumulative
    }
}

impl StreamMeter {
    pub fn new() -> (r: StreamMeter)
        ensures
            r.estimated == 0,
            r.cumulative == 0,
            r.finish@ == "stop"@,
    {
        StreamMeter { estimated: 0, cumulative: 0, finish: "stop".to_owned() }
    }

    /// The delta that ends the stream.
    pub fn done_delta(&self) -> (d: CompletionDelta)
        ensures
            d.text@.len() == 0,
            d.cumulative_tokens == self.cumulative,
            d.done,
            d.finish_reason == Some(self.finish),
    {
        CompletionDelta {
            text: String::new(),
            cumulative_tokens: self.cumulative,
            done: true,
            finish_reason: Some(self.finish.clone()),
        }
    }

    /// Meter a text delta: non-empty text is estimated, the count is raised
    /// to the estimate, and the text is forwarded.
    fn on_text(&mut self, text: String) -> (a: AdapterStep)
        requires
            old(self).estimated + text@.len() + 1 <= u64::MAX,
        ensures
            text@.len() == 0 ==> *final(self) == *old(self) && a is Skip,
            text@.len() > 0 ==> {
                &&& final(self).estimated == old(self).estimated + estimated_tokens(text@)
                &&& final(self).cumulative == raised(old(self).cumulative, final(self).estimated)
                &&& final(self).finish == old(self).finish
                &&& a == AdapterStep::Send(
                    CompletionDelta {
                        text,
                        cumulative_tokens: final(self).cumulative,
                        done: false,
                        finish_reason: None,
                    },
                )
            },
    {
        if text.as_str().is_empty() {
            return AdapterStep::Skip;
        }
        proof {
            assert(estimated_tokens(text@) <= text@.len() + 1) by (nonlinear_arith)
                requires
                    text@.len() > 0,
            ;
        }
        self.estimated = self.estimated + estimate_tokens(text.as_str());
        if self.cumulative < self.estimated {
            self.cumulative = self.estimated;
        }
        AdapterStep::Send(
            CompletionDelta {
                text,
                cumulative_tokens: self.cumulative,
                done: false,
                finish_reason: None,
            },
        )
    }

    /// Meter one event of the Anthropic messages stream.
    pub fn anthropic_event(&mut self, ev: AnthropicEvent) -> (a: AdapterStep)
        requires
            ev.text matches Some(t) ==> old(self).estimated + t@.len() + 1 <= u64::MAX,
        ensures
            ev.kind@ == "content_block_delta"@ ==> match ev.text {
                Some(t) => t@.len() == 0 ==> a is Skip && *final(self) == *old(self),
                None => a is Skip && *final(self) == *old(self),
            },
            ev.kind@ == "content_block_delta"@ && (ev.text matches Some(t) && t@.len() > 0) ==> {
                &&& final(self).estimated == old(self).estimated + estimated_tokens(
                    ev.text.unwrap()@,
                )
                &&& final(self).cumulative == raised(old(self).cumulative, final(self).estimated)
                &&& final(self).finish == old(self).finish
                &&& a == AdapterStep::Send(
                    CompletionDelta {
                        text: ev.text.unwrap(),
                        cumulative_tokens: final(self).cumulative,
                        done: false,
                        finish_reason: None,
                    },
                )
            },
            ev.kind@ == "message_delta"@ ==> {
                &&& a is Skip
                &&& final(self).estimated == old(self).estimated
                &&& final(self).cumulative == match ev.output_tokens {
                    Some(u) => u,
                    None => old(self).cumulative,
                }
                &&& final(self).finish == match ev.stop_reason {
                    Some(s) => s,
                    None => old(self).finish,
                }
            },
            ev.kind@ == "message_stop"@ ==> *final(self) == *old(self) && a == AdapterStep::Finish(
                CompletionDelta {
                    text: a->Finish_0.text,
                    cumulative_tokens: old(self).cumulative,
                    done: true,
                    finish_reason: Some(old(self).finish),
                },
            ) && a->Finish_0.text@.len() == 0,
            !(ev.kind@ == "content_block_delta"@ || ev.kind@ == "message_delta"@ || ev.kind@
                == "message_stop"@) ==> a is Skip && *final(self) == *old(self),
    {
        proof {
            reveal_strlit("content_block_delta");
            reveal_strlit("message_delta");
            reveal_strlit("message_stop");
            assert("message_delta"@ != "content_block_delta"@) by {
                assert("message_delta"@.len() != "content_block_delta"@.len());
            }
            assert("message_stop"@ != "content_block_delta"@) by {
                assert("message_stop"@.len() != "content_block_delta"@.len());
            }
            assert("message_stop"@ != "message_delta"@) by {
                assert("message_stop"@.len() != "message_delta"@.len());
            }
        }
        if str_eq(ev.kind.as_str(), "content_block_delta") {
            match ev.text {
                Some(t) => self.on_text(t),
                None => AdapterStep::Skip,
            }
        } else if str_eq(ev.kind.as_str(), "message_delta") {
            match ev.output_tokens {
                Some(u) => {
                    self.cumulative = u;
                },
                None => {},
            }
            match ev.stop_reason {
                Some(s) => {
                    self.finish = s;
                },
                None => {},
            }
            AdapterStep::Skip
        } else if str_eq(ev.kind.as_str(), "message_stop") {
            AdapterStep::Finish(self.done_delta())
        } else {
            AdapterStep::Skip
        }
    }

    /// Meter one parsed chunk of a chat-completions stream.
    pub fn compat_chunk(&mut self, c: CompatChunk) -> (a: AdapterStep)
        requires
            c.content matches Some(t) ==> old(self).estimated + t@.len() + 1 <= u64::MAX,
        ensures
            ({
                let cumulative = match c.completion_tokens {
                    Some(u) => u,
                    None => old(self).cumulative,
                };
                &&& final(self).finish == match c.finish_reason {
                    Some(f) => f,
                    None => old(self).finish,
                }
                &&& match c.content {
                    Some(t) if t@.len() > 0 => {
                        &&& final(self).estimated == old(self).estimated + estimated_tokens(t@)
                        &&& final(self).cumulative == raised(cumulative, final(self).estimated)
                        &&& a == AdapterStep::Send(
                            CompletionDelta {
                                text: t,
                                cumulative_tokens: final(self).cumulative,
                                done: false,
                                finish_reason: None,
                            },
                        )
                    },
                    _ => {
                        &&& final(self).estimated == old(self).estimated
                        &&& final(self).cumulative == cumulative
                        &&& a is Skip
                    },
                }
            }),
    {
        match c.completion_tokens {
            Some(u) => {
                self.cumulative = u;
            },
            None => {},
        }
        match c.finish_reason {
            Some(f) => {
                self.finish = f;
            },
            None => {},
        }
        match c.content {
            Some(t) => self.on_text(t),
            None => AdapterStep::Skip,
        }
    }

    /// Meter one line of an Ollama chat stream: the text delta to forward
    /// (if any), then the final delta when the backend is done.
    pub fn ollama_chunk(&mut self, c: OllamaChunk) -> (r: (Option<CompletionDelta>, Option<
        CompletionDelta,
    >))
        requires
            old(self).estimated + c.content@.len() + 1 <= u64::MAX,
        ensures
            ({
                let has_text = c.content@.len() > 0;
                let estimated = if has_text {
                    old(self).estimated + estimated_tokens(c.content@)
                } else {
                    old(self).estimated as int
                };
                let cumulative = match c.eval_count {
                    Some(n) => n as int,
                    None => estimated,
                };
                &&& final(self).estimated == estimated
                &&& final(self).cumulative == cumulative
                &&& final(self).finish == old(self).finish
                &&& if has_text {
                    r.0 == Some(
                        CompletionDelta {
                            text: c.content,
                            cumulative_tokens: cumulative as u64,
                            done: false,
                            finish_reason: None,
                        },
                    )
                } else {
                    r.0 is None
                }
                &&& c.done ==> (r.1 matches Some(d) && d.text@.len() == 0 && d.cumulative_tokens
                    == cumulative && d.done && d.finish_reason is Some
                    && d.finish_reason.unwrap()@ == (match c.done_reason {
                    Some(x) => x@,
                    None => "stop"@,
                }))
                &&& !c.done ==> r.1 is None
            }),
    {
        let has_text = !c.content.as_str().is_empty();
        if has_text {
            proof {
                assert(estimated_tokens(c.content@) <= c.content@.len() + 1) by (nonlinear_arith)
                    requires
                        c.content@.len() > 0,
                ;
            }
            self.estimated = self.estimated + estimate_tokens(c.content.as_str());
        }
        let cumulative = match c.eval_count {
            Some(n) => n,
            None => self.estimated,
        };
        self.cumulative = cumulative;
        let first = if has_text {
            Some(
                CompletionDelta {
                    text: c.content,
                    cumulative_tokens: cumulative,
                    done: false,
                    finish_reason: None,
                },
            )
        } else {
            None
        };
        let last = if c.done {
            let reason = match c.done_reason {
                Some(x) => x,
                None => "stop".to_owned(),
            };
            Some(
                CompletionDelta {
                    text: String::new(),
                    cumulative_tokens: cumulative,
                    done: true,
                    finish_reason: Some(reason),
                },
            )
        } else {
            None
        };
        (first, last)
    }
}

/// The base URL of a backend: the one given, else the default, without
/// trailing slashes.
pub open spec fn strip_slashes(s: Seq<char>) -> Seq<char>
    decreases s.len(),
{
    if s.len() > 0 && s.last() == '/' {
        strip_slashes(s.drop_last())
    } else {
        s
    }
}

/// `s` with its trailing slashes removed.
pub fn trim_trailing_slashes(s: &str) -> (r: String)
    ensures
        r@ == strip_slashes(s@),
{
    let v = chars_of(s);
    let mut j: usize = v.len();
    assert(v@.subrange(0, v@.len() as int) =~= v@);
    while j > 0 && v[j - 1] == '/'
        invariant
            j <= v@.len(),
            strip_slashes(v@) == strip_slashes(v@.subrange(0, j as int)),
        decreases j,
    {
        assert(v@.subrange(0, j as int).drop_last() =~= v@.subrange(0, j - 1));
        j = j - 1;
    }
    let mut out: Vec<char> = Vec::new();
    let mut k: usize = 0;
    while k < j
        invariant
            j <= v@.len(),
            k <= j,
            out@ == v@.subrange(0, k as int),
        decreases j - k,
    {
        out.push(v[k]);
        k = k + 1;
        assert(out@ =~= v@.subrange(0, k as int));
    }
    proof {
        let u = v@.subrange(0, j as int);
        if u.len() > 0 {
            assert(u.last() == v@[j - 1]);
        }
    }
    assert(v@.subrange(0, v@.len() as int) =~= v@);
    string_of(out.as_slice())
}

/// The default address of a local Ollama.
pub const OLLAMA_URL: &'static str = "http://127.0.0.1:11434";

/// The default Anthropic API base.
pub const ANTHROPIC_URL: &'static str = "https://api.anthropic.com/v1";

/// A backend's base URL: the given one or the default, without trailing
/// slashes.
pub fn base_url(given: Option<String>, default: &str) -> (r: String)
    ensures
        r@ == strip_slashes(
            match given {
                Some(g) => g@,
                None => default@,
            },
        ),
{
    match given {
        Some(g) => trim_trailing_slashes(g.as_str()),
        None => trim_trailing_slashes(default),
    }
}

/// The inference backends a peer can serve from.
#[derive(Debug, Clone, Copy, PartialEq, Eq, Structural)]
pub enum BackendKind {
    Ollama,
    Compat,
    Anthropic,
}

impl BackendKind {
    /// The backend's name in offers (never shown to consumers for matching).
    pub fn backend(&self) -> (r: &'static str)
        ensures
            r@ == match *self {
                BackendKind::Ollama => "ollama"@,
                BackendKind::Compat => "endpoint"@,
                BackendKind::Anthropic => "anthropic"@,
            },
    {
        match self {
            BackendKind::Ollama => "ollama",
            BackendKind::Compat => "endpoint",
            BackendKind::Anthropic => "anthropic",
        }
    }
}

} // verus!

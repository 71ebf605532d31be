//! Consumer side: the retry policy around matching, the per-job stream
//! accounting, the fan-out strategies and the majority vote.

use vstd::prelude::*;
use vstd::string::StringExecFns;

use libp2p::multiaddr::{Multiaddr, Protocol};
use libp2p_identity::PeerId;

use crate::api::MatchResponse;
use crate::crypto::{parse_peer_id, peer_id_text_valid};
use crate::protocol::Wire;
use crate::text::{
    lemma_normalize_idempotent,
    chars_eq, chars_of, concat, decimal, lower, lowercase_chars, str_eq, string_of, trim, trimmed, u64_to_decimal,
};
use crate::types::{clone_strings, opt_view, Match, MatchRequest, ModelCaps, ModelId};

verus! {

/// How many distinct seeders to try for one request before giving up.
pub const MAX_MATCH_ATTEMPTS: usize = 3;

/// Seconds to wait for the first token of a seeder before trying another.
pub const FIRST_TOKEN_TIMEOUT_SECS: u64 = 90;

/// Seconds of silence mid-answer after which the job fails.
pub const IDLE_TIMEOUT_SECS: u64 = 90;

/// A finished completion from one provider.
#[derive(Debug, Clone)]
pub struct CompletionResult {
    pub text: String,
    pub cumulative_tokens: u64,
    pub finish_reason: String,
    pub provider: String,
}

/// Streaming events emitted to a caller.
#[derive(Debug, Clone)]
pub enum StreamItem {
    Delta(String),
    Done { finish_reason: String },
    Error(String),
}

/// Fan-out strategy for a single prompt across multiple providers.
#[derive(Debug, Clone, Copy, PartialEq, Eq, Structural)]
pub enum Fanout {
    /// one provider (default), the only mode that streams
    Single,
    /// dial K, return the first full completion
    Racing,
    /// dial K, return the majority answer and how many agreed
    Quorum,
    /// dial K, return every answer as a separate choice
    Ensemble,
}

/// The mode a normalized (trimmed, lower-cased) name selects.
pub open spec fn fanout_named(k: Seq<char>) -> Option<Fanout> {
    if k.len() == 0 || k == "single"@ || k == "off"@ {
        Some(Fanout::Single)
    } else if k == "racing"@ || k == "race"@ || k == "first"@ || k == "fastest"@ {
        Some(Fanout::Racing)
    } else if k == "quorum"@ || k == "vote"@ || k == "redundant"@ {
        Some(Fanout::Quorum)
    } else if k == "ensemble"@ || k == "moa"@ || k == "all"@ {
        Some(Fanout::Ensemble)
    } else {
        None
    }
}

fn is_word(k: &[char], w: &str) -> (r: bool)
    ensures
        r == (k@ == w@),
{
    let v = chars_of(w);
    chars_eq(k, v.as_slice())
}

impl Fanout {
    /// Parse a mode from a user-supplied string (case-insensitive, with aliases).
    pub fn parse(s: &str) -> (r: Option<Fanout>)
        ensures
            r == fanout_named(lower(trim(s@))),
    {
        let t = trimmed(s);
        let k = lowercase_chars(t.as_slice());
        let k = k.as_slice();
        if k.len() == 0 || is_word(k, "single") || is_word(k, "off") {
            Some(Fanout::Single)
        } else if is_word(k, "racing") || is_word(k, "race") || is_word(k, "first") || is_word(
            k,
            "fastest",
        ) {
            Some(Fanout::Racing)
        } else if is_word(k, "quorum") || is_word(k, "vote") || is_word(k, "redundant") {
            Some(Fanout::Quorum)
        } else if is_word(k, "ensemble") || is_word(k, "moa") || is_word(k, "all") {
            Some(Fanout::Ensemble)
        } else {
            None
        }
    }
}

/// Parsing a mode ignores surrounding whitespace and case: a text parses as
/// the same mode as its trimmed, lower-cased form.
pub proof fn lemma_fanout_parse_normalized(s: Seq<char>)
    ensures
        fanout_named(lower(trim(s))) == fanout_named(lower(trim(lower(trim(s))))),
{
    lemma_normalize_idempotent(s);
}

/// How many of `s` carry the text `t`.
pub open spec fn count_text(s: Seq<CompletionResult>, t: Seq<char>) -> nat
    decreases s.len(),
{
    if s.len() == 0 {
        0
    } else {
        count_text(s.drop_last(), t) + if s.last().text@ == t {
            1nat
        } else {
            0nat
        }
    }
}

/// `i` is the first position whose text is the most common one.
pub open spec fn is_majority_index(s: Seq<CompletionResult>, i: int) -> bool {
    &&& 0 <= i < s.len()
    &&& forall|j: int|
        0 <= j < s.len() ==> count_text(s, #[trigger] s[j].text@) <= count_text(s, s[i].text@)
    &&& forall|j: int|
        0 <= j < i ==> count_text(s, #[trigger] s[j].text@) < count_text(s, s[i].text@)
}

/// An element is counted among those that share its text, and no more than
/// all of them are.
pub proof fn lemma_count_text_bounds(s: Seq<CompletionResult>, k: int)
    requires
        0 <= k < s.len(),
    ensures
        1 <= count_text(s, s[k].text@) <= s.len(),
    decreases s.len(),
{
    lemma_count_text_le_len(s, s[k].text@);
    if k < s.len() - 1 {
        lemma_count_text_bounds(s.drop_last(), k);
    }
}

proof fn lemma_count_text_le_len(s: Seq<CompletionResult>, t: Seq<char>)
    ensures
        count_text(s, t) <= s.len(),
    decreases s.len(),
{
    if s.len() > 0 {
        lemma_count_text_le_len(s.drop_last(), t);
    }
}

fn count_same_text(results: &Vec<CompletionResult>, i: usize) -> (c: usize)
    requires
        i < results@.len(),
    ensures
        c == count_text(results@, results@[i as int].text@),
{
    let ghost t = results@[i as int].text@;
    let mut c: usize = 0;
    let mut k: usize = 0;
    while k < results.len()
        invariant
            k <= results@.len(),
            i < results@.len(),
            t == results@[i as int].text@,
            c == count_text(results@.subrange(0, k as int), t),
            c <= k,
        decreases results@.len() - k,
    {
        proof {
            assert(results@.subrange(0, k + 1).drop_last() =~= results@.subrange(0, k as int));
        }
        if results[k].text == results[i].text {
            c = c + 1;
        }
        k = k + 1;
    }
    assert(results@.subrange(0, results@.len() as int) =~= results@);
    c
}

/// The completion whose text is most common (ties go to the first), with the
/// number of responses that agree with it.
pub fn majority(results: Vec<CompletionResult>) -> (r: (CompletionResult, usize))
    requires
        results@.len() > 0,
    ensures
        exists|i: int|
            is_majority_index(results@, i) && r.0 == results@[i] && r.1 == count_text(
                results@,
                results@[i].text@,
            ),
{
    let mut results = results;
    let ghost s = results@;
    let mut best_idx: usize = 0;
    let mut best_count: usize = 0;
    let mut i: usize = 0;
    while i < results.len()
        invariant
            results@ == s,
            s.len() > 0,
            i <= s.len(),
            i == 0 ==> best_idx == 0 && best_count == 0,
            i > 0 ==> best_idx < i && best_count == count_text(s, s[best_idx as int].text@),
            forall|j: int| 0 <= j < i ==> count_text(s, #[trigger] s[j].text@) <= best_count,
            forall|j: int| 0 <= j < best_idx ==> count_text(s, #[trigger] s[j].text@) < best_count,
        decreases s.len() - i,
    {
        let c = count_same_text(&results, i);
        if c > best_count {
            best_count = c;
            best_idx = i;
        }
        i = i + 1;
    }
    let winner = results.swap_remove(best_idx);
    assert(is_majority_index(s, best_idx as int));
    (winner, best_count)
}

/// Outcome of a fan-out: one or more candidate completions plus metadata.
#[derive(Debug)]
pub struct FanoutOutcome {
    /// one for single, racing and quorum; every answer for ensemble
    pub choices: Vec<CompletionResult>,
    pub mode: &'static str,
    /// quorum only: how many providers agreed on the returned answer
    pub agreement: Option<usize>,
    /// how many providers returned a successful completion
    pub responded: usize,
}

/// Whether a request in `mode` for `count` providers goes to more than one.
pub fn fans_out(mode: Fanout, count: u32) -> (r: bool)
    ensures
        r == !(mode == Fanout::Single || count <= 1),
{
    !(mode == Fanout::Single || count <= 1)
}

/// Message when every provider of a fan-out failed.
pub const ALL_FAILED: &'static str = "all providers failed";

/// Message when the coordinator offered nobody for a fan-out.
pub const NO_FANOUT_PROVIDERS: &'static str = "no providers available for fan-out";

/// The outcome of a fan-out in `mode`, from the successful completions in the
/// order they finished.
pub fn fanout_outcome(mode: Fanout, results: Vec<CompletionResult>) -> (r: Result<
    FanoutOutcome,
    String,
>)
    ensures
        results@.len() == 0 ==> (r matches Err(e) && e@ == ALL_FAILED@),
        results@.len() > 0 ==> (r matches Ok(o) && match mode {
            Fanout::Single => o.choices@ == seq![results@[0]] && o.mode@ == "single"@
                && o.agreement is None && o.responded == 1,
            Fanout::Racing => o.choices@ == seq![results@[0]] && o.mode@ == "racing"@
                && o.agreement is None && o.responded == 1,
            Fanout::Ensemble => o.choices@ == results@ && o.mode@ == "ensemble"@
                && o.agreement is None && o.responded == results@.len(),
            Fanout::Quorum => o.mode@ == "quorum"@ && o.responded == results@.len() && exists|
                i: int,
            |
                is_majority_index(results@, i) && o.choices@ == seq![results@[i]]
                    && o.agreement == Some(count_text(results@, results@[i].text@) as usize),
        }),
{
    if results.len() == 0 {
        return Err(ALL_FAILED.to_owned());
    }
    match mode {
        Fanout::Single | Fanout::Racing => {
            let mut results = results;
            let ghost s = results@;
            let first = results.swap_remove(0);
            let mut choices: Vec<CompletionResult> = Vec::new();
            choices.push(first);
            assert(choices@ =~= seq![s[0]]);
            let name: &'static str = if mode == Fanout::Single {
                "single"
            } else {
                "racing"
            };
            Ok(FanoutOutcome { choices, mode: name, agreement: None, responded: 1 })
        },
        Fanout::Ensemble => {
            let responded = results.len();
            Ok(FanoutOutcome { choices: results, mode: "ensemble", agreement: None, responded })
        },
        Fanout::Quorum => {
            let responded = results.len();
            let ghost s = results@;
            let (winner, agree) = majority(results);
            let mut choices: Vec<CompletionResult> = Vec::new();
            choices.push(winner);
            let ghost i = choose|i: int|
                is_majority_index(s, i) && winner == s[i] && agree == count_text(s, s[i].text@);
            assert(choices@ =~= seq![s[i]]);
            Ok(FanoutOutcome { choices, mode: "quorum", agreement: Some(agree), responded })
        },
    }
}

} // verus!

verus! {

/// The stream event that ends a consumer's request, from its final result.
pub fn final_item(res: Result<CompletionResult, String>) -> (r: StreamItem)
    ensures
        r == match res {
            Ok(c) => StreamItem::Done { finish_reason: c.finish_reason },
            Err(e) => StreamItem::Error(e),
        },
{
    match res {
        Ok(c) => StreamItem::Done { finish_reason: c.finish_reason },
        Err(e) => StreamItem::Error(e),
    }
}

/// Message when the coordinator has no seeder for the model.
pub const NO_PROVIDER: &'static str = "no provider available for this model";

/// Message when no other seeder is left after failed attempts.
pub const NO_ALTERNATIVE: &'static str = "no alternative provider available after retries";

/// Message when the consumer's ratio is too low to leech.
pub const RATE_LIMITED: &'static str = "rate limited: serve more to restore your ratio before leeching";

/// Message when every attempt failed without a recorded error.
pub const ATTEMPTS_EXHAUSTED: &'static str = "all providers failed for this request";

/// What the consumer does next while looking for a seeder.
#[derive(Debug)]
pub enum LeechAction {
    /// ask the coordinator for a match
    RequestMatch,
    /// wait this many milliseconds, then call `next_attempt`
    Backoff { ms: u64 },
    /// dial the matched seeder and stream the completion
    Dial(Match),
    /// stop with this error
    Fail(String),
}

/// The retry policy of one request: bounded attempts, each to a different
/// seeder, and no switch once tokens have reached the caller.
#[derive(Debug)]
pub struct LeechRetry {
    /// the current attempt, counted from 0
    pub attempt: usize,
    /// seeders that already failed this request
    pub tried: Vec<String>,
    /// whether tokens were delivered to the caller
    pub delivered: bool,
    /// the most recent error
    pub last_err: Option<String>,
}

/// The error a request ends with when the coordinator reports no seeder.
pub open spec fn no_provider_error(last_err: Option<String>, tried: Seq<String>) -> Seq<char> {
    match last_err {
        Some(e) => e@,
        None => if tried.len() == 0 {
            NO_PROVIDER@
        } else {
            NO_ALTERNATIVE@
        },
    }
}

impl LeechRetry {
    pub fn new() -> (r: LeechRetry)
        ensures
            r.attempt == 0,
            r.tried@.len() == 0,
            !r.delivered,
            r.last_err is None,
    {
        LeechRetry { attempt: 0, tried: Vec::new(), delivered: false, last_err: None }
    }

    /// The match request of the current attempt: every seeder that already
    /// failed this request is excluded.
    pub fn match_request(&self, consumer: String, model: ModelId, require: ModelCaps) -> (r:
        MatchRequest)
        ensures
            r.consumer == consumer,
            r.model == model,
            r.require == require,
            r.exclude@ == self.tried@,
    {
        MatchRequest { consumer, model, require, exclude: clone_strings(&self.tried) }
    }

    /// The coordinator could not be reached: retryable, after a backoff.
    pub fn match_unavailable(&mut self, err: String) -> (a: LeechAction)
        requires
            old(self).attempt < MAX_MATCH_ATTEMPTS,
        ensures
            final(self).last_err == Some(err),
            final(self).attempt == old(self).attempt,
            final(self).tried@ == old(self).tried@,
            final(self).delivered == old(self).delivered,
            a == (LeechAction::Backoff { ms: (200 * (old(self).attempt + 1)) as u64 }),
    {
        self.last_err = Some(err);
        LeechAction::Backoff { ms: 200 * (self.attempt as u64 + 1) }
    }

    /// The coordinator answered the match request.
    pub fn matched(&self, resp: MatchResponse) -> (a: LeechAction)
        ensures
            match resp {
                MatchResponse::Matched(m) => a == LeechAction::Dial(m),
                MatchResponse::NoProvider => (a matches LeechAction::Fail(e) && e@
                    == no_provider_error(self.last_err, self.tried@)),
                MatchResponse::RatioExceeded => (a matches LeechAction::Fail(e) && e@
                    == RATE_LIMITED@),
            },
    {
        match resp {
            MatchResponse::Matched(m) => LeechAction::Dial(m),
            MatchResponse::NoProvider => {
                let e = match &self.last_err {
                    Some(e) => e.clone(),
                    None => if self.tried.len() == 0 {
                        NO_PROVIDER.to_owned()
                    } else {
                        NO_ALTERNATIVE.to_owned()
                    },
                };
                LeechAction::Fail(e)
            },
            MatchResponse::RatioExceeded => LeechAction::Fail(RATE_LIMITED.to_owned()),
        }
    }

    /// The attempt with `provider` failed with `err`; `delivered` says whether
    /// any token reached the caller during it.
    pub fn attempt_failed(&mut self, provider: String, err: String, delivered: bool) -> (a:
        LeechAction)
        requires
            old(self).attempt < MAX_MATCH_ATTEMPTS,
        ensures
            final(self).last_err == Some(err),
            final(self).attempt == old(self).attempt,
            final(self).delivered == (old(self).delivered || delivered),
            final(self).delivered ==> a == LeechAction::Fail(err) && final(self).tried@ == old(
                self,
            ).tried@,
            !final(self).delivered ==> a == (LeechAction::Backoff {
                ms: (150 * (old(self).attempt + 1)) as u64,
            }) && final(self).tried@ == old(self).tried@.push(provider),
    {
        self.delivered = self.delivered || delivered;
        self.last_err = Some(err.clone());
        if self.delivered {
            LeechAction::Fail(err)
        } else {
            self.tried.push(provider);
            LeechAction::Backoff { ms: 150 * (self.attempt as u64 + 1) }
        }
    }

    /// After a backoff: begin the next attempt, or give up when all are spent.
    pub fn next_attempt(&mut self) -> (a: LeechAction)
        requires
            old(self).attempt < MAX_MATCH_ATTEMPTS,
        ensures
            final(self).attempt == old(self).attempt + 1,
            final(self).tried@ == old(self).tried@,
            final(self).delivered == old(self).delivered,
            final(self).last_err == old(self).last_err,
            final(self).attempt < MAX_MATCH_ATTEMPTS ==> a == LeechAction::RequestMatch,
            final(self).attempt == MAX_MATCH_ATTEMPTS ==> (a matches LeechAction::Fail(e) && e@
                == (match old(self).last_err {
                Some(x) => x@,
                None => ATTEMPTS_EXHAUSTED@,
            })),
    {
        self.attempt = self.attempt + 1;
        if self.attempt < MAX_MATCH_ATTEMPTS {
            LeechAction::RequestMatch
        } else {
            match &self.last_err {
                Some(e) => LeechAction::Fail(e.clone()),
                None => LeechAction::Fail(ATTEMPTS_EXHAUSTED.to_owned()),
            }
        }
    }
}

} // verus!

verus! {

/// What the consumer does with a message of the seeder's stream.
#[derive(Debug)]
pub enum ConsumerAction {
    /// hand `delta` to the caller, then co-sign a receipt for `seq` and
    /// `cumulative_tokens`
    Acknowledge { seq: u64, delta: String, cumulative_tokens: u64 },
    /// ignore the message and read the next one
    Continue,
    /// the completion is finished
    Finish,
    /// the job failed with this error
    Fail(String),
}

/// Prefix of the error when the seeder reports a failure.
pub const PROVIDER_ERROR: &'static str = "provider error: ";

/// The consumer's view of one streamed job.
#[derive(Debug)]
pub struct StreamAccount {
    /// the text received so far
    pub text: String,
    /// the token count last reported by the seeder
    pub cumulative: u64,
    pub finish: String,
    /// whether a chunk has arrived
    pub got_first: bool,
}

impl StreamAccount {
    pub fn new() -> (r: StreamAccount)
        ensures
            r.text@.len() == 0,
            r.cumulative == 0,
            r.finish@ == "stop"@,
            !r.got_first,
    {
        StreamAccount {
            text: String::new(),
            cumulative: 0,
            finish: "stop".to_owned(),
            got_first: false,
        }
    }

    /// Seconds to wait for the next message: longer for the first token.
    pub fn budget_secs(&self) -> (r: u64)
        ensures
            r == if self.got_first {
                IDLE_TIMEOUT_SECS
            } else {
                FIRST_TOKEN_TIMEOUT_SECS
            },
    {
        if self.got_first {
            IDLE_TIMEOUT_SECS
        } else {
            FIRST_TOKEN_TIMEOUT_SECS
        }
    }

    /// Account for the next message of the stream (`None`: the stream ended).
    pub fn on_message(&mut self, msg: Option<Wire>) -> (a: ConsumerAction)
        ensures
            match msg {
                Some(Wire::Chunk { seq, text, cumulative_tokens }) => {
                    &&& final(self).got_first
                    &&& final(self).text@ == old(self).text@ + text@
                    &&& final(self).cumulative == cumulative_tokens
                    &&& final(self).finish == old(self).finish
                    &&& a == (ConsumerAction::Acknowledge {
                        seq,
                        delta: text,
                        cumulative_tokens,
                    })
                },
                Some(Wire::Done { finish_reason, cumulative_tokens }) => {
                    &&& final(self).cumulative == if cumulative_tokens >= old(self).cumulative {
                        cumulative_tokens
                    } else {
                        old(self).cumulative
                    }
                    &&& final(self).finish == finish_reason
                    &&& final(self).text == old(self).text
                    &&& final(self).got_first == old(self).got_first
                    &&& a is Finish
                },
                Some(Wire::Error { message }) => {
                    &&& *final(self) == *old(self)
                    &&& a matches ConsumerAction::Fail(e) && e@ == PROVIDER_ERROR@ + message@
                },
                Some(_) => *final(self) == *old(self) && a is Continue,
                None => *final(self) == *old(self) && a is Finish,
            },
    {
        match msg {
            Some(Wire::Chunk { seq, text, cumulative_tokens }) => {
                self.got_first = true;
                self.text.append(text.as_str());
                self.cumulative = cumulative_tokens;
                ConsumerAction::Acknowledge { seq, delta: text, cumulative_tokens }
            },
            Some(Wire::Done { finish_reason, cumulative_tokens }) => {
                if cumulative_tokens >= self.cumulative {
                    self.cumulative = cumulative_tokens;
                }
                self.finish = finish_reason;
                ConsumerAction::Finish
            },
            Some(Wire::Error { message }) => ConsumerAction::Fail(
                concat(PROVIDER_ERROR, message.as_str()),
            ),
            Some(_) => ConsumerAction::Continue,
            None => ConsumerAction::Finish,
        }
    }

    /// The error when the seeder stays silent past the current budget.
    pub fn timed_out(&self) -> (e: String)
        ensures
            e@ == "seeder timed out after "@ + decimal(
                if self.got_first {
                    IDLE_TIMEOUT_SECS
                } else {
                    FIRST_TOKEN_TIMEOUT_SECS
                } as nat,
            ) + "s"@,
    {
        let n = u64_to_decimal(self.budget_secs());
        let mut e = "seeder timed out after ".to_owned();
        let secs = string_of(n.as_slice());
        e.append(secs.as_str());
        e.append("s");
        e
    }

    /// The finished completion, served by `provider`.
    pub fn finish(self, provider: String) -> (r: CompletionResult)
        ensures
            r == (CompletionResult {
                text: self.text,
                cumulative_tokens: self.cumulative,
                finish_reason: self.finish,
                provider,
            }),
    {
        CompletionResult {
            text: self.text,
            cumulative_tokens: self.cumulative,
            finish_reason: self.finish,
            provider,
        }
    }
}

/// Message when a streaming race has no winner.
pub const RACE_LOST: &'static str = "all providers failed";

/// A streaming race: the first peer to emit a token wins, and only its
/// tokens reach the caller.
#[derive(Debug)]
pub struct RaceState {
    pub winner: Option<usize>,
}

impl RaceState {
    pub fn new() -> (r: RaceState)
        ensures
            r.winner is None,
    {
        RaceState { winner: None }
    }

    /// Peer `idx` emitted a token; the result says whether to forward it.
    pub fn on_token(&mut self, idx: usize) -> (forward: bool)
        ensures
            old(self).winner is None ==> final(self).winner == Some(idx),
            old(self).winner is Some ==> final(self).winner == old(self).winner,
            forward == (final(self).winner == Some(idx)),
    {
        if self.winner.is_none() {
            self.winner = Some(idx);
        }
        match self.winner {
            Some(w) => w == idx,
            None => false,
        }
    }

    /// Peer `idx` finished with `res`; the winner's end is the caller's end.
    pub fn on_finished(&self, idx: usize, res: Result<CompletionResult, String>) -> (r: Option<
        StreamItem,
    >)
        ensures
            self.winner == Some(idx) ==> r == Some(
                match res {
                    Ok(c) => StreamItem::Done { finish_reason: c.finish_reason },
                    Err(e) => StreamItem::Error(e),
                },
            ),
            self.winner != Some(idx) ==> r is None,
    {
        match self.winner {
            Some(w) => if w == idx {
                Some(final_item(res))
            } else {
                None
            },
            None => None,
        }
    }

    /// Every peer finished: without a winner, the race failed.
    pub fn on_drained(&self) -> (r: Option<StreamItem>)
        ensures
            self.winner is None ==> (r matches Some(StreamItem::Error(e)) && e@ == RACE_LOST@),
            self.winner is Some ==> r is None,
    {
        if self.winner.is_none() {
            Some(StreamItem::Error(RACE_LOST.to_owned()))
        } else {
            None
        }
    }
}

/// Whether `Multiaddr::from_str` accepts this text.
pub uninterp spec fn multiaddr_text_valid(text: Seq<char>) -> bool;

/// The peer id (base58 text) of the last component of the multiaddr `addr`
/// when that component is `/p2p/<peer>`, else `None`.
pub uninterp spec fn last_peer_of(addr: Seq<char>) -> Option<Seq<char>>;

/// The text of the multiaddr `addr` with a `/p2p/<peer>` component appended.
pub uninterp spec fn with_peer_appended(addr: Seq<char>, peer: Seq<char>) -> Seq<char>;

/// `Multiaddr::from_str`: whether the text parses as a multiaddr.
#[verifier::external_body]
pub(crate) fn multiaddr_parses(text: &str) -> (r: bool)
    ensures
        r == multiaddr_text_valid(text@),
{
    text.parse::<Multiaddr>().is_ok()
}

/// `Multiaddr::iter().last()` on the parsed address: the peer id of a final
/// `/p2p/..` component, in its `Display` text.
#[verifier::external_body]
fn multiaddr_last_peer(addr: &str) -> (r: Option<String>)
    requires
        multiaddr_text_valid(addr@),
    ensures
        opt_view(r) == last_peer_of(addr@),
{
    match addr.parse::<Multiaddr>() {
        Ok(a) => match a.iter().last() {
            Some(Protocol::P2p(id)) => Some(id.to_string()),
            _ => None,
        },
        Err(_) => None,
    }
}

/// `Multiaddr::with(Protocol::P2p(peer))`, in `Display` text. `with` pushes
/// the component at the end, so the result's last component is that peer,
/// whose text is `peer` again (a peer id's text form is canonical), and the
/// text parses back.
#[verifier::external_body]
fn multiaddr_with_peer(addr: &str, peer: &str) -> (r: String)
    requires
        multiaddr_text_valid(addr@),
        peer_id_text_valid(peer@),
    ensures
        r@ == with_peer_appended(addr@, peer@),
        multiaddr_text_valid(r@),
        last_peer_of(r@) == Some(peer@),
{
    match (addr.parse::<Multiaddr>(), peer.parse::<PeerId>()) {
        (Ok(a), Ok(p)) => a.with(Protocol::P2p(p)).to_string(),
        _ => String::new(),
    }
}

/// The dial address of `peer` at `addr`: `addr` itself when it already ends
/// with the peer's `/p2p` component, else `addr` with it appended.
pub open spec fn peer_ensured(addr: Seq<char>, peer: Seq<char>) -> Seq<char> {
    if last_peer_of(addr) == Some(peer) {
        addr
    } else {
        with_peer_appended(addr, peer)
    }
}

/// Re-attach a provider's peer id to a bare dial address. An address that
/// already ends with this peer's component is returned unchanged, and the
/// result always ends with it, so attaching twice changes nothing more.
pub fn ensure_peer(addr: &str, peer: &str) -> (r: String)
    requires
        multiaddr_text_valid(addr@),
        peer_id_text_valid(peer@),
    ensures
        r@ == peer_ensured(addr@, peer@),
        multiaddr_text_valid(r@),
        last_peer_of(r@) == Some(peer@),
        peer_ensured(r@, peer@) == r@,
{
    match multiaddr_last_peer(addr) {
        Some(last) => {
            if str_eq(last.as_str(), peer) {
                return addr.to_owned();
            }
        },
        None => {},
    }
    multiaddr_with_peer(addr, peer)
}

/// The dial address of a matched provider, from the texts the coordinator
/// sends: `None` when the address is not a multiaddr or the provider not a
/// peer id.
pub fn dial_address(addr: &str, peer: &str) -> (r: Option<String>)
    ensures
        r is Some <==> multiaddr_text_valid(addr@) && peer_id_text_valid(peer@),
        r matches Some(s) ==> s@ == peer_ensured(addr@, peer@) && last_peer_of(s@) == Some(
            peer@,
        ),
{
    if !multiaddr_parses(addr) || parse_peer_id(peer).is_err() {
        return None;
    }
    Some(ensure_peer(addr, peer))
}

} // verus!

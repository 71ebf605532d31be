//! Core domain types shared between the coordinator and the client daemon.

use vstd::prelude::*;
use vstd::string::StringExecFns;

verus! {

/// Coarse model capabilities (tools / vision / reasoning); all false = unknown.
#[derive(Debug, Clone, Copy, Default, PartialEq, Eq, Structural)]
pub struct ModelCaps {
    pub tools: bool,
    pub vision: bool,
    pub reasoning: bool,
}

impl ModelCaps {
    /// No capability at all (the default).
    pub open spec fn default_spec() -> ModelCaps {
        ModelCaps { tools: false, vision: false, reasoning: false }
    }

    pub fn none() -> (r: ModelCaps)
        ensures
            r == ModelCaps::default_spec(),
    {
        ModelCaps { tools: false, vision: false, reasoning: false }
    }

    /// Every capability that `req` requires is present in `self`.
    pub open spec fn spec_satisfies(self, req: ModelCaps) -> bool {
        (req.tools ==> self.tools) && (req.vision ==> self.vision) && (req.reasoning
            ==> self.reasoning)
    }

    pub open spec fn spec_is_empty(self) -> bool {
        !self.tools && !self.vision && !self.reasoning
    }

    /// True if this offer satisfies every capability the request requires.
    pub fn satisfies(&self, req: &ModelCaps) -> (r: bool)
        ensures
            r == self.spec_satisfies(*req),
    {
        (!req.tools || self.tools) && (!req.vision || self.vision) && (!req.reasoning
            || self.reasoning)
    }

    /// No capability set / required.
    pub fn is_empty(&self) -> (r: bool)
        ensures
            r == self.spec_is_empty(),
    {
        !self.tools && !self.vision && !self.reasoning
    }
}

/// A model identity as advertised and matched on.
#[derive(Debug, Clone, Default)]
pub struct ModelId {
    pub name: String,
    pub quant: Option<String>,
}

/// The canonical matching key: `name@quant` when a non-empty quant is present.
pub open spec fn model_key(name: Seq<char>, quant: Option<Seq<char>>) -> Seq<char> {
    match quant {
        Some(q) => if q.len() > 0 {
            name + seq!['@'] + q
        } else {
            name
        },
        None => name,
    }
}

pub open spec fn opt_view(o: Option<String>) -> Option<Seq<char>> {
    match o {
        Some(s) => Some(s@),
        None => None,
    }
}

impl ModelId {
    pub open spec fn spec_key(self) -> Seq<char> {
        model_key(self.name@, opt_view(self.quant))
    }

    /// Canonical string key used for matching.
    pub fn key(&self) -> (r: String)
        ensures
            r@ == self.spec_key(),
    {
        match &self.quant {
            Some(q) => {
                if q.as_str().is_empty() {
                    self.name.clone()
                } else {
                    let mut s = self.name.clone();
                    s.append("@");
                    s.append(q.as_str());
                    proof {
                        reveal_strlit("@");
                    }
                    s
                }
            },
            None => self.name.clone(),
        }
    }
}


/// A copy of `m` that equals it.
pub fn clone_model(m: &ModelId) -> (r: ModelId)
    ensures
        r == *m,
{
    ModelId {
        name: m.name.clone(),
        quant: match &m.quant {
            Some(q) => Some(q.clone()),
            None => None,
        },
    }
}

/// A copy of a list of strings.
pub fn clone_strings(v: &Vec<String>) -> (r: Vec<String>)
    ensures
        r@ == v@,
{
    let mut r: Vec<String> = Vec::new();
    let mut i: usize = 0;
    while i < v.len()
        invariant
            i <= v@.len(),
            r@ == v@.subrange(0, i as int),
        decreases v@.len() - i,
    {
        r.push(v[i].clone());
        i = i + 1;
        assert(r@ =~= v@.subrange(0, i as int));
    }
    assert(v@.subrange(0, v@.len() as int) =~= v@);
    r
}

/// What a seeder can serve. The backend kind is provider-internal.
///
/// The serving throughput is carried in thousandths of a token per second
/// (0 = unknown, neutral).
#[derive(Debug, Clone, Default)]
pub struct ModelOffer {
    pub model: ModelId,
    pub backend: String,
    pub caps: ModelCaps,
    pub tokens_per_sec_milli: u64,
}

/// Heartbeat a seeder sends to the coordinator to stay in the live directory.
#[derive(Debug, Clone)]
pub struct Heartbeat {
    pub peer_id: String,
    pub multiaddrs: Vec<String>,
    pub offers: Vec<ModelOffer>,
    pub capacity: u32,
    pub in_flight: u32,
    pub pubkey: String,
    pub sig: String,
}

/// A consumer's request to the coordinator to be matched with a seeder.
#[derive(Debug, Clone, Default)]
pub struct MatchRequest {
    pub consumer: String,
    pub model: ModelId,
    /// capabilities the consumer requires; with no capable provider the
    /// coordinator falls back to any provider
    pub require: ModelCaps,
    /// providers that already failed this request
    pub exclude: Vec<String>,
}

/// The coordinator's answer: a seeder to dial, plus a job grant.
#[derive(Debug, Clone)]
pub struct Match {
    pub job_id: String,
    pub provider: String,
    pub multiaddrs: Vec<String>,
    pub model: ModelId,
    pub audit: bool,
}

/// Whether a flag is unset (such fields are left out of the wire form).
pub fn is_false(b: &bool) -> (r: bool)
    ensures
        r == !*b,
{
    !*b
}

/// Reputation is carried in parts per million (1_000_000 = 1.0).
pub const REPUTATION_ONE: u32 = 1_000_000;

/// Per-identity accounting the coordinator maintains (the barter ratio).
#[derive(Debug, Clone)]
pub struct LedgerEntry {
    pub peer_id: String,
    /// cumulative output tokens served to others (upload)
    pub served: u64,
    /// cumulative output tokens consumed from others (download)
    pub consumed: u64,
    /// rolling reputation score in [0, 1], in parts per million
    pub reputation_ppm: u32,
    pub audits_passed: u32,
    pub audits_total: u32,
    pub first_seen: u64,
}

impl LedgerEntry {
    pub fn new(peer_id: String, now: u64) -> (r: Self)
        ensures
            r.peer_id == peer_id,
            r.served == 0,
            r.consumed == 0,
            r.reputation_ppm == REPUTATION_ONE,
            r.audits_passed == 0,
            r.audits_total == 0,
            r.first_seen == now,
    {
        LedgerEntry {
            peer_id,
            served: 0,
            consumed: 0,
            reputation_ppm: REPUTATION_ONE,
            audits_passed: 0,
            audits_total: 0,
            first_seen: now,
        }
    }

    /// served / consumed >= num / den, with nothing consumed counting as an
    /// infinite ratio.
    pub open spec fn spec_ratio_at_least(self, num: nat, den: nat) -> bool {
        self.consumed == 0 || self.served * den >= num * self.consumed
    }

    /// Whether the upload/download ratio is at least `num / den` (`den > 0`).
    pub fn ratio_at_least(&self, num: u64, den: u64) -> (r: bool)
        requires
            den > 0,
        ensures
            r == self.spec_ratio_at_least(num as nat, den as nat),
    {
        if self.consumed == 0 {
            true
        } else {
            let a: u128 = self.served as u128;
            let b: u128 = den as u128;
            let c: u128 = num as u128;
            let d: u128 = self.consumed as u128;
            assert(a * b <= u64::MAX * u64::MAX) by (nonlinear_arith)
                requires
                    a <= u64::MAX,
                    b <= u64::MAX,
            ;
            assert(c * d <= u64::MAX * u64::MAX) by (nonlinear_arith)
                requires
                    c <= u64::MAX,
                    d <= u64::MAX,
            ;
            a * b >= c * d
        }
    }
}

/// One chat turn.
#[derive(Debug, Clone)]
pub struct ChatMessage {
    pub role: String,
    pub content: String,
}

/// Sampling parameters. The two real-valued knobs are carried as the bit
/// patterns of their single-precision values; the library only forwards them.
#[derive(Debug, Clone, Default)]
pub struct ChatCompletionParams {
    pub temperature_bits: Option<u32>,
    pub top_p_bits: Option<u32>,
    pub max_tokens: Option<u32>,
    pub stop: Option<Vec<String>>,
}

/// A streamed piece of generated output from a backend adapter.
#[derive(Debug, Clone)]
pub struct CompletionDelta {
    pub text: String,
    pub cumulative_tokens: u64,
    pub done: bool,
    pub finish_reason: Option<String>,
}

} // verus!

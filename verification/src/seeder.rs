//! Provider side: admission of an inbound job, the chunking of the backend's
//! output with one co-signed receipt per chunk, and settlement.

use vstd::prelude::*;
use vstd::string::StringExecFns;

use crate::api::SettleRequest;
use crate::crypto::{
    base64_decoding, import_pubkey, owns_peer, peer_text_of, pubkey_bytes_valid, PubKey,
};
use crate::protocol::Wire;
use crate::receipts::{receipt_authentic, verify_receipt, SignedReceipt};
use crate::text::{concat, decimal, str_eq, string_of, trim, u64_to_decimal};
use crate::types::{ChatCompletionParams, ChatMessage, CompletionDelta};

verus! {

/// Flush a chunk (and request a receipt) about every this many output tokens.
pub const CHUNK_TOKENS: u64 = 16;

/// How many times a provider tries to settle a finished job.
pub const SETTLE_ATTEMPTS: u32 = 3;

pub const EXPECTED_REQUEST: &'static str = "expected request";

pub const KEY_MISMATCH: &'static str = "consumer pubkey mismatch";

pub const AT_CAPACITY: &'static str = "provider at capacity";

pub const NOT_SERVED: &'static str = "model not served: ";

/// The opening message of a job, as the provider received it.
#[derive(Debug)]
pub struct JobRequest {
    pub job_id: String,
    pub model: String,
    pub consumer_pubkey: String,
    pub messages: Vec<ChatMessage>,
    pub params: ChatCompletionParams,
}

/// The first message of a stream must open a job.
pub fn expect_request(first: Option<Wire>) -> (r: Result<JobRequest, String>)
    ensures
        match first {
            Some(Wire::Request { job_id, model, consumer_pubkey, messages, params }) => r == Ok::<
                JobRequest,
                String,
            >(JobRequest { job_id, model, consumer_pubkey, messages, params }),
            _ => (r matches Err(e) && e@ == EXPECTED_REQUEST@),
        },
{
    match first {
        Some(Wire::Request { job_id, model, consumer_pubkey, messages, params }) => Ok(
            JobRequest { job_id, model, consumer_pubkey, messages, params },
        ),
        _ => Err(EXPECTED_REQUEST.to_owned()),
    }
}

/// The remote peer must own the public key it presents: the key decodes and
/// its peer id is `peer` (base58 text).
pub fn check_consumer_key(consumer_pubkey: &str, peer: &str) -> (r: Result<PubKey, String>)
    ensures
        r is Ok <==> (base64_decoding(trim(consumer_pubkey@)) matches Some(b) && pubkey_bytes_valid(b)
            && peer_text_of(b) == peer@),
        r matches Ok(pk) ==> base64_decoding(trim(consumer_pubkey@)) == Some(pk@),
        r matches Err(e) ==> e@ == KEY_MISMATCH@,
{
    match import_pubkey(consumer_pubkey) {
        Ok(pk) => if owns_peer(&pk, peer) {
            Ok(pk)
        } else {
            Err(KEY_MISMATCH.to_owned())
        },
        Err(_) => Err(KEY_MISMATCH.to_owned()),
    }
}

/// The refusal of a request whose serialized messages take `size` bytes, when
/// this provider accepts at most `max_input_bytes` (0: no limit).
pub fn input_size_error(size: u64, max_input_bytes: u64) -> (r: Option<String>)
    ensures
        r is Some <==> (max_input_bytes > 0 && size > max_input_bytes),
        r matches Some(e) ==> e@ == "request too large: "@ + decimal(size as nat)
            + " bytes exceeds this peer's limit ("@ + decimal(max_input_bytes as nat) + ")"@,
{
    if max_input_bytes > 0 && size > max_input_bytes {
        let mut e = "request too large: ".to_owned();
        let a = string_of(u64_to_decimal(size).as_slice());
        e.append(a.as_str());
        e.append(" bytes exceeds this peer's limit (");
        let b = string_of(u64_to_decimal(max_input_bytes).as_slice());
        e.append(b.as_str());
        e.append(")");
        Some(e)
    } else {
        None
    }
}

/// The output-token limit after applying this provider's cap (0: no cap).
pub open spec fn capped_max_tokens(requested: Option<u32>, cap: u32) -> Option<u32> {
    if cap == 0 {
        requested
    } else {
        Some(
            match requested {
                Some(n) => if n <= cap {
                    n
                } else {
                    cap
                },
                None => cap,
            },
        )
    }
}

/// Cap output tokens to this provider's configured maximum.
pub fn cap_output(params: ChatCompletionParams, max_output_tokens: u32) -> (r: ChatCompletionParams)
    ensures
        r.max_tokens == capped_max_tokens(params.max_tokens, max_output_tokens),
        r.temperature_bits == params.temperature_bits,
        r.top_p_bits == params.top_p_bits,
        r.stop == params.stop,
{
    let mut params = params;
    if max_output_tokens > 0 {
        params.max_tokens = Some(
            match params.max_tokens {
                Some(n) => if n <= max_output_tokens {
                    n
                } else {
                    max_output_tokens
                },
                None => max_output_tokens,
            },
        );
    }
    params
}

/// Whether a just-reserved slot (`reserved` jobs were in flight before it)
/// exceeds the advertised capacity (0: unlimited).
pub fn over_capacity(capacity: u32, reserved: u32) -> (r: bool)
    ensures
        r == (capacity > 0 && reserved >= capacity),
{
    capacity > 0 && reserved >= capacity
}

/// How to serve a given model key: which adapter, and the backend model name.
#[derive(Debug, Clone)]
pub struct ModelServe {
    pub adapter: usize,
    pub name: String,
}

/// The serving entry of the first key in `entries` equal to `key`.
pub open spec fn lookup(entries: Seq<(String, ModelServe)>, key: Seq<char>) -> Option<ModelServe>
    decreases entries.len(),
{
    if entries.len() == 0 {
        None
    } else if entries[0].0@ == key {
        Some(entries[0].1)
    } else {
        lookup(entries.drop_first(), key)
    }
}

/// The routing from model keys to the adapter that serves them; the first
/// entry for a key wins.
#[derive(Debug)]
pub struct ModelIndex {
    pub entries: Vec<(String, ModelServe)>,
}

proof fn lemma_lookup_push(entries: Seq<(String, ModelServe)>, e: (String, ModelServe), key: Seq<
    char,
>)
    ensures
        lookup(entries.push(e), key) == match lookup(entries, key) {
            Some(s) => Some(s),
            None => if e.0@ == key {
                Some(e.1)
            } else {
                None
            },
        },
    decreases entries.len(),
{
    if entries.len() > 0 {
        assert(entries.push(e).drop_first() =~= entries.drop_first().push(e));
        lemma_lookup_push(entries.drop_first(), e, key);
    } else {
        assert(entries.push(e).drop_first() =~= entries);
    }
}

impl ModelIndex {
    pub fn new() -> (r: ModelIndex)
        ensures
            r.entries@.len() == 0,
    {
        ModelIndex { entries: Vec::new() }
    }

    /// Route `key` to `serve` unless it is routed already.
    pub fn add(&mut self, key: String, serve: ModelServe)
        ensures
            forall|k: Seq<char>|
                #![trigger lookup(final(self).entries@, k)]
                lookup(final(self).entries@, k) == match lookup(old(self).entries@, k) {
                    Some(s) => Some(s),
                    None => if key@ == k {
                        Some(serve)
                    } else {
                        None
                    },
                },
    {
        proof {
            assert forall|k: Seq<char>| #[trigger]
                lookup(self.entries@.push((key, serve)), k) == match lookup(self.entries@, k) {
                    Some(s) => Some(s),
                    None => if key@ == k {
                        Some(serve)
                    } else {
                        None
                    },
                } by {
                lemma_lookup_push(self.entries@, (key, serve), k);
            }
        }
        self.entries.push((key, serve));
    }

    /// The serving entry for `key`.
    pub fn get(&self, key: &str) -> (r: Option<&ModelServe>)
        ensures
            match lookup(self.entries@, key@) {
                Some(s) => r == Some(&s),
                None => r is None,
            },
    {
        let mut i: usize = 0;
        assert(self.entries@.skip(0) =~= self.entries@);
        while i < self.entries.len()
            invariant
                i <= self.entries@.len(),
                lookup(self.entries@, key@) == lookup(self.entries@.skip(i as int), key@),
            decreases self.entries@.len() - i,
        {
            assert(self.entries@.skip(i as int).drop_first() =~= self.entries@.skip(i + 1));
            if str_eq(self.entries[i].0.as_str(), key) {
                return Some(&self.entries[i].1);
            }
            i = i + 1;
        }
        None
    }

    /// The serving entry for `key`, or the refusal sent to the consumer.
    pub fn find(&self, key: &str) -> (r: Result<&ModelServe, String>)
        ensures
            match lookup(self.entries@, key@) {
                Some(s) => r == Ok::<&ModelServe, String>(&s),
                None => (r matches Err(e) && e@ == NOT_SERVED@ + key@),
            },
    {
        match self.get(key) {
            Some(s) => Ok(s),
            None => Err(concat(NOT_SERVED, key)),
        }
    }
}

/// `a - b`, or 0 when `b` exceeds `a`.
pub open spec fn sat_sub(a: u64, b: u64) -> u64 {
    if a >= b {
        (a - b) as u64
    } else {
        0
    }
}

/// The provider's side of one job's stream: output not yet sent, the chunk
/// counter, and the best receipt so far.
#[derive(Debug)]
pub struct ProviderStream {
    pub seq: u64,
    /// the cumulative token count of the last acknowledged chunk
    pub last_acked: u64,
    pub cumulative: u64,
    /// output not yet sent in a chunk
    pub pending: String,
    pub finish: String,
    /// the consumer-signed receipt with the highest count so far
    pub latest: Option<SignedReceipt>,
}

impl ProviderStream {
    pub fn new() -> (r: ProviderStream)
        ensures
            r.seq == 0,
            r.last_acked == 0,
            r.cumulative == 0,
            r.pending@.len() == 0,
            r.finish@ == "stop"@,
            r.latest is None,
    {
        ProviderStream {
            seq: 0,
            last_acked: 0,
            cumulative: 0,
            pending: String::new(),
            finish: "stop".to_owned(),
            latest: None,
        }
    }

    /// Take in one delta from the backend; the result is the chunk to send,
    /// if one is due (after which the consumer's receipt is awaited).
    pub fn on_delta(&mut self, delta: CompletionDelta) -> (chunk: Option<Wire>)
        requires
            old(self).seq < u64::MAX,
        ensures
            ({
                let has_text = delta.text@.len() > 0;
                let pending = if has_text {
                    old(self).pending@ + delta.text@
                } else {
                    old(self).pending@
                };
                let cumulative = if has_text && delta.cumulative_tokens > old(self).cumulative {
                    delta.cumulative_tokens
                } else {
                    old(self).cumulative
                };
                let flush = delta.done || sat_sub(cumulative, old(self).last_acked) >= CHUNK_TOKENS;
                &&& final(self).cumulative == cumulative
                &&& final(self).finish == match delta.finish_reason {
                    Some(fr) => fr,
                    None => old(self).finish,
                }
                &&& final(self).last_acked == old(self).last_acked
                &&& final(self).latest == old(self).latest
                &&& if flush && (pending.len() > 0 || delta.done) {
                    &&& final(self).seq == old(self).seq + 1
                    &&& final(self).pending@.len() == 0
                    &&& chunk matches Some(Wire::Chunk { seq, text, cumulative_tokens }) && seq
                        == old(self).seq + 1 && text@ == pending && cumulative_tokens == cumulative
                } else {
                    &&& final(self).seq == old(self).seq
                    &&& final(self).pending@ == pending
                    &&& chunk is None
                }
            }),
    {
        if !delta.text.as_str().is_empty() {
            self.pending.append(delta.text.as_str());
            if delta.cumulative_tokens > self.cumulative {
                self.cumulative = delta.cumulative_tokens;
            }
        }
        match delta.finish_reason {
            Some(fr) => {
                self.finish = fr;
            },
            None => {},
        }
        let behind: u64 = if self.cumulative >= self.last_acked {
            self.cumulative - self.last_acked
        } else {
            0
        };
        let flush = delta.done || behind >= CHUNK_TOKENS;
        if flush && (!self.pending.as_str().is_empty() || delta.done) {
            self.seq = self.seq + 1;
            let mut text = String::new();
            std::mem::swap(&mut text, &mut self.pending);
            Some(Wire::Chunk { seq: self.seq, text, cumulative_tokens: self.cumulative })
        } else {
            None
        }
    }

    /// The consumer's answer to the last chunk: a valid receipt, or `None`
    /// when it went away or cheated. The result says whether to go on.
    pub fn on_receipt(&mut self, receipt: Option<SignedReceipt>) -> (go_on: bool)
        ensures
            go_on == receipt is Some,
            receipt is Some ==> final(self).latest == receipt && final(self).last_acked == old(
                self,
            ).cumulative,
            receipt is None ==> final(self).latest == old(self).latest && final(self).last_acked
                == old(self).last_acked,
            final(self).seq == old(self).seq,
            final(self).cumulative == old(self).cumulative,
            final(self).pending == old(self).pending,
            final(self).finish == old(self).finish,
    {
        match receipt {
            Some(r) => {
                self.latest = Some(r);
                self.last_acked = self.cumulative;
                true
            },
            None => false,
        }
    }

    /// The message that ends a completed stream.
    pub fn done_message(&self) -> (w: Wire)
        ensures
            w == (Wire::Done { finish_reason: self.finish, cumulative_tokens: self.cumulative }),
    {
        Wire::Done { finish_reason: self.finish.clone(), cumulative_tokens: self.cumulative }
    }

    /// The settlement to submit for this job: the best receipt, if any.
    pub fn settlement(self, consumer_pubkey: String) -> (r: Option<SettleRequest>)
        ensures
            match self.latest {
                Some(receipt) => r == Some(
                    SettleRequest { receipt, consumer_pubkey, completed: true },
                ),
                None => r is None,
            },
    {
        match self.latest {
            Some(receipt) => Some(SettleRequest { receipt, consumer_pubkey, completed: true }),
            None => None,
        }
    }
}

/// How a provider takes a message read while awaiting a receipt.
#[derive(Debug)]
pub enum ReceiptVerdict {
    /// a valid acknowledgement of enough tokens
    Accept(SignedReceipt),
    /// wrong job, bad signature or end of stream: stop serving
    Reject,
    /// a stale receipt or another message: keep waiting
    Wait,
}

/// Judge a message read while awaiting the receipt for `target` tokens of
/// job `job_id`, signed by `consumer_pk`: a receipt for this job that is
/// authentic is taken once it covers `target` tokens and waited past before;
/// a receipt for another job or a forged one ends the serving.
pub fn judge_receipt(msg: Option<Wire>, job_id: &str, consumer_pk: &PubKey, target: u64) -> (v:
    ReceiptVerdict)
    ensures
        match msg {
            Some(Wire::Receipt { receipt }) => {
                let good = receipt.body.job_id@ == job_id@ && receipt_authentic(
                    receipt.body,
                    receipt.consumer_sig@,
                    consumer_pk@,
                );
                &&& v is Reject <==> !good
                &&& v is Accept <==> good && receipt.body.cumulative_tokens >= target
                &&& v is Wait <==> good && receipt.body.cumulative_tokens < target
                &&& v matches ReceiptVerdict::Accept(x) ==> x == receipt
            },
            Some(_) => v is Wait,
            None => v is Reject,
        },
{
    match msg {
        Some(Wire::Receipt { receipt }) => {
            if !str_eq(receipt.body.job_id.as_str(), job_id) || !verify_receipt(
                &receipt.body,
                receipt.consumer_sig.as_str(),
                consumer_pk,
            ) {
                ReceiptVerdict::Reject
            } else if receipt.body.cumulative_tokens >= target {
                ReceiptVerdict::Accept(receipt)
            } else {
                ReceiptVerdict::Wait
            }
        },
        Some(_) => ReceiptVerdict::Wait,
        None => ReceiptVerdict::Reject,
    }
}

/// Milliseconds to wait after the settle attempt `attempt` failed.
pub fn settle_backoff_ms(attempt: u32) -> (r: u64)
    requires
        attempt < SETTLE_ATTEMPTS,
    ensures
        r == 200 * (attempt + 1),
{
    200 * (attempt as u64 + 1)
}

} // verus!

verus! {

/// The provider's cap only ever lowers the consumer's limit: with a cap set,
/// the limit becomes the smaller of the requested limit and the cap (the cap
/// alone when none was requested); with no cap the request passes unchanged.
pub proof fn lemma_cap_output_is_min(requested: Option<u32>, cap: u32)
    ensures
        cap == 0 ==> capped_max_tokens(requested, cap) == requested,
        cap > 0 ==> (capped_max_tokens(requested, cap) matches Some(x) && x <= cap && (
        requested matches Some(n) ==> x <= n && (x == n || x == cap)) && (requested is None
            ==> x == cap)),
{
}

} // verus!

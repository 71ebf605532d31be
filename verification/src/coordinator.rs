//! Coordinator state: the live provider directory, the per-model index, the
//! ratio ledger and open jobs, plus matchmaking over them.

use dashmap::{DashMap, DashSet};
use vstd::prelude::*;

use crate::api::{
    MatchManyRequest, MatchManyResponse, MatchResponse, SettleRequest, SettleResponse,
};
use crate::auth::{credentials_well_formed, heartbeat_authentic, verify_heartbeat};
use crate::clock::now_ms;
use crate::crypto::{base64_decoding, import_pubkey, pubkey_bytes_valid};
use crate::receipts::{receipt_authentic, verify_settlement};
use crate::text::trim;
use uuid::Uuid;
use crate::crypto::{parse_peer_id, peer_id_text_valid};
use crate::text::str_eq;
use crate::tables::{
    index_add, index_peers, index_remove, job_contains, job_entries, job_insert, job_remove, ledger_contains,
    ledger_get, ledger_insert, lists_set, model_index, new_job_table, new_ledger_table,
    new_model_index, new_provider_table, provider_entries, provider_get, provider_insert, provider_remove,
    provider_table,
    job_table, ledger_table, is_snapshot,
};
use crate::types::{
    clone_model, clone_strings, Heartbeat, Match, MatchRequest, REPUTATION_ONE, LedgerEntry, ModelCaps, ModelId, ModelOffer,
};

verus! {

/// Max live candidates gathered per match, and max index entries scanned.
pub const MATCH_SAMPLE: usize = 32;
pub const MATCH_MAX_SCAN: usize = 256;
/// A fresh consumer may draw down this many tokens before the ratio gate applies.
pub const NEWCOMER_GRACE_TOKENS: u64 = 50_000;
/// Minimum served/consumed ratio once past the grace allowance: 1/2.
pub const MIN_RATIO_NUM: u64 = 1;
pub const MIN_RATIO_DEN: u64 = 2;
/// A provider heartbeat older than this is considered offline.
pub const HEARTBEAT_TTL_MS: u64 = 30_000;
/// Route every Nth match through a newcomer/audit slot.
pub const AUDIT_EVERY: u64 = 5;
/// Providers with fewer than this many audits count as newcomers.
pub const NEWCOMER_AUDIT_THRESHOLD: u32 = 3;
/// Max providers a single fan-out request may claim.
pub const MAX_FANOUT: usize = 5;
/// A job unsettled for longer than this is swept.
pub const JOB_TTL_MS: u64 = 5 * 60 * 1000;
/// Throughput (thousandths of a token per second) earning the full speed bonus.
pub const TPS_CAP_MILLI: u64 = 100_000;
/// Input bounds on heartbeats.
pub const MAX_MULTIADDRS: usize = 8;
pub const MAX_ADDR_LEN: usize = 160;
pub const MAX_OFFERS: usize = 64;
pub const MAX_STR_LEN: usize = 128;
pub const MAX_CAPACITY: u32 = 4096;

/// Byte length of a string's UTF-8 encoding (what `str::len` returns).
#[verifier::opaque]
pub open spec fn byte_len(s: String) -> usize {
    vstd::utf8::encode_utf8(s@).len() as usize
}

/// Why a heartbeat is rejected (the first failing bound), or `None` if it is
/// acceptable. `peer_ok` says whether the peer id parses as a real peer id.
pub open spec fn heartbeat_rejection(hb: Heartbeat, peer_ok: bool) -> Option<Seq<char>> {
    if byte_len(hb.peer_id) == 0 || byte_len(hb.peer_id) > MAX_STR_LEN {
        Some("peer_id length"@)
    } else if !peer_ok {
        Some("peer_id not a valid PeerId"@)
    } else if hb.multiaddrs@.len() > MAX_MULTIADDRS {
        Some("too many multiaddrs"@)
    } else if exists|i: int|
        0 <= i < hb.multiaddrs@.len() && byte_len(#[trigger] hb.multiaddrs@[i]) > MAX_ADDR_LEN {
        Some("multiaddr too long"@)
    } else if hb.offers@.len() > MAX_OFFERS {
        Some("too many offers"@)
    } else if exists|i: int| 0 <= i < hb.offers@.len() && offer_rejection(#[trigger] hb.offers@[i]) is Some {
        offer_rejection(hb.offers@[first_bad_offer(hb.offers@)])
    } else if hb.capacity > MAX_CAPACITY {
        Some("capacity too high"@)
    } else {
        None
    }
}

/// Validation accepts exactly the heartbeats within the bounds: a peer id of
/// 1 to `MAX_STR_LEN` bytes that is a real peer id, at most `MAX_MULTIADDRS`
/// addresses of at most `MAX_ADDR_LEN` bytes, at most `MAX_OFFERS` offers each
/// with a model name of 1 to `MAX_STR_LEN` bytes, a quant (if any) and a
/// backend of at most `MAX_STR_LEN` bytes, and a capacity of at most
/// `MAX_CAPACITY`.
pub proof fn lemma_heartbeat_bounds(hb: Heartbeat, peer_ok: bool)
    ensures
        heartbeat_rejection(hb, peer_ok) is None <==> {
            &&& 1 <= byte_len(hb.peer_id) <= MAX_STR_LEN
            &&& peer_ok
            &&& hb.multiaddrs@.len() <= MAX_MULTIADDRS
            &&& forall|i: int| 0 <= i < hb.multiaddrs@.len() ==> byte_len(#[trigger] hb.multiaddrs@[i]) <= MAX_ADDR_LEN
            &&& hb.offers@.len() <= MAX_OFFERS
            &&& forall|i: int|
                0 <= i < hb.offers@.len() ==> {
                    let o = #[trigger] hb.offers@[i];
                    &&& 1 <= byte_len(o.model.name) <= MAX_STR_LEN
                    &&& (o.model.quant matches Some(q) ==> byte_len(q) <= MAX_STR_LEN)
                    &&& byte_len(o.backend) <= MAX_STR_LEN
                }
            &&& hb.capacity <= MAX_CAPACITY
        },
{
    let offers = hb.offers@;
    if exists|i: int| 0 <= i < offers.len() && offer_rejection(#[trigger] offers[i]) is Some {
        let k = choose|i: int| 0 <= i < offers.len() && offer_rejection(#[trigger] offers[i]) is Some;
        lemma_first_bad_offer(offers, k);
    }
}

proof fn lemma_first_bad_offer(offers: Seq<ModelOffer>, k: int)
    requires
        0 <= k < offers.len(),
        offer_rejection(offers[k]) is Some,
    ensures
        0 <= first_bad_offer(offers) < offers.len(),
        offer_rejection(offers[first_bad_offer(offers)]) is Some,
    decreases k,
{
    if exists|q: int| 0 <= q < k && offer_rejection(#[trigger] offers[q]) is Some {
        let q = choose|q: int| 0 <= q < k && offer_rejection(#[trigger] offers[q]) is Some;
        lemma_first_bad_offer(offers, q);
    } else {
        assert(0 <= k < offers.len() && offer_rejection(offers[k]) is Some && forall|j: int|
            0 <= j < k ==> offer_rejection(#[trigger] offers[j]) is None);
    }
}

pub open spec fn offer_rejection(off: ModelOffer) -> Option<Seq<char>> {
    if byte_len(off.model.name) == 0 || byte_len(off.model.name) > MAX_STR_LEN {
        Some("model name length"@)
    } else if off.model.quant matches Some(q) && byte_len(q) > MAX_STR_LEN {
        Some("quant length"@)
    } else if byte_len(off.backend) > MAX_STR_LEN {
        Some("backend length"@)
    } else {
        None
    }
}

pub open spec fn first_bad_offer(offers: Seq<ModelOffer>) -> int {
    choose|i: int|
        0 <= i < offers.len() && offer_rejection(offers[i]) is Some && forall|j: int|
            0 <= j < i ==> offer_rejection(#[trigger] offers[j]) is None
}

fn str_byte_len(s: &String) -> (n: usize)
    ensures
        n == byte_len(*s),
{
    proof {
        reveal(byte_len);
    }
    s.as_str().len()
}

fn check_offer(off: &ModelOffer) -> (r: Result<(), &'static str>)
    ensures
        match offer_rejection(*off) {
            None => r is Ok,
            Some(m) => r matches Err(e) && e@ == m,
        },
{
    let n = str_byte_len(&off.model.name);
    if n == 0 || n > MAX_STR_LEN {
        return Err("model name length");
    }
    if let Some(q) = &off.model.quant {
        if str_byte_len(q) > MAX_STR_LEN {
            return Err("quant length");
        }
    }
    if str_byte_len(&off.backend) > MAX_STR_LEN {
        return Err("backend length");
    }
    Ok(())
}

/// Reject a heartbeat whose fields exceed sane bounds, or whose `peer_id` is
/// not a real peer id. Returns the reason on rejection.
#[verifier::loop_isolation(false)]
pub fn validate_heartbeat(hb: &Heartbeat) -> (r: Result<(), &'static str>)
    ensures
        match heartbeat_rejection(*hb, peer_id_text_valid(hb.peer_id@)) {
            None => r is Ok,
            Some(m) => r matches Err(e) && e@ == m,
        },
{
    let n = str_byte_len(&hb.peer_id);
    if n == 0 || n > MAX_STR_LEN {
        return Err("peer_id length");
    }
    if parse_peer_id(hb.peer_id.as_str()).is_err() {
        return Err("peer_id not a valid PeerId");
    }
    if hb.multiaddrs.len() > MAX_MULTIADDRS {
        return Err("too many multiaddrs");
    }
    let mut i: usize = 0;
    while i < hb.multiaddrs.len()
        invariant
            i <= hb.multiaddrs@.len(),
            forall|k: int| 0 <= k < i ==> byte_len(#[trigger] hb.multiaddrs@[k]) <= MAX_ADDR_LEN,
        decreases hb.multiaddrs@.len() - i,
    {
        if str_byte_len(&hb.multiaddrs[i]) > MAX_ADDR_LEN {
            assert(byte_len(hb.multiaddrs@[i as int]) > MAX_ADDR_LEN);
            return Err("multiaddr too long");
        }
        i = i + 1;
    }
    if hb.offers.len() > MAX_OFFERS {
        return Err("too many offers");
    }
    let mut j: usize = 0;
    while j < hb.offers.len()
        invariant
            j <= hb.offers@.len(),
            forall|k: int| 0 <= k < j ==> offer_rejection(#[trigger] hb.offers@[k]) is None,
        decreases hb.offers@.len() - j,
    {
        let c = check_offer(&hb.offers[j]);
        if c.is_err() {
            assert(offer_rejection(hb.offers@[j as int]) is Some);
            assert(first_bad_offer(hb.offers@) == j);
            return c;
        }
        j = j + 1;
    }
    if hb.capacity > MAX_CAPACITY {
        return Err("capacity too high");
    }
    Ok(())
}

/// A provider in the live directory: its last heartbeat and when it arrived.
#[derive(Debug, Clone)]
pub struct Provider {
    pub hb: Heartbeat,
    pub last_seen: u64,
}

/// A matched, not yet settled job.
#[derive(Debug, Clone)]
pub struct Job {
    pub consumer: String,
    pub provider: String,
    pub model: ModelId,
    pub audit: bool,
    /// creation time (ms), used by the sweep to drop abandoned jobs
    pub created: u64,
}


/// A copy of a heartbeat's strings-and-offers payload.
fn clone_offer(o: &ModelOffer) -> (r: ModelOffer)
    ensures
        r == *o,
{
    ModelOffer {
        model: clone_model(&o.model),
        backend: o.backend.clone(),
        caps: o.caps,
        tokens_per_sec_milli: o.tokens_per_sec_milli,
    }
}

/// A ledger row as first created for `peer` at time `now`.
pub open spec fn is_fresh_entry(e: LedgerEntry, peer: Seq<char>, now: u64) -> bool {
    &&& e.peer_id@ == peer
    &&& e.served == 0
    &&& e.consumed == 0
    &&& e.reputation_ppm == REPUTATION_ONE
    &&& e.audits_passed == 0
    &&& e.audits_total == 0
    &&& e.first_seen == now
}

/// The coordinator's state: directory, ledger, jobs and the per-model index.
pub struct State {
    providers: DashMap<String, Provider>,
    ledger: DashMap<String, LedgerEntry>,
    jobs: DashMap<String, Job>,
    /// model name -> peer ids serving it
    by_model: DashMap<String, DashSet<String>>,
    /// accept heartbeats without a valid signature (load testing only)
    allow_unsigned: bool,
    /// bearer secret of a private network (None = open network)
    join_secret: Option<String>,
    match_counter: u64,
}

impl State {
    pub closed spec fn provider_map(self) -> Map<Seq<char>, Provider> {
        provider_table(self.providers)
    }

    pub closed spec fn ledger_map(self) -> Map<Seq<char>, LedgerEntry> {
        ledger_table(self.ledger)
    }

    pub closed spec fn job_map(self) -> Map<Seq<char>, Job> {
        job_table(self.jobs)
    }

    pub closed spec fn index_map(self) -> Map<Seq<char>, Set<Seq<char>>> {
        model_index(self.by_model)
    }

    /// How many matches have been made so far (drives the audit slots and the
    /// weighted draw).
    pub closed spec fn counter(self) -> u64 {
        self.match_counter
    }

    /// Whether heartbeats are accepted without a valid signature.
    pub closed spec fn unsigned_allowed(self) -> bool {
        self.allow_unsigned
    }

    /// The bearer secret of a private network (None = open network).
    pub closed spec fn network_secret(self) -> Option<String> {
        self.join_secret
    }

    /// Build state: `allow_unsigned` accepts unsigned heartbeats (load-test
    /// only); `join_secret` gates a private network.
    pub fn new(allow_unsigned: bool, join_secret: Option<String>) -> (r: Self)
        ensures
            r.provider_map().is_empty(),
            r.ledger_map().is_empty(),
            r.job_map().is_empty(),
            r.index_map().is_empty(),
            r.unsigned_allowed() == allow_unsigned,
            r.network_secret() == join_secret,
            r.counter() == 0,
    {
        State {
            providers: new_provider_table(),
            ledger: new_ledger_table(),
            jobs: new_job_table(),
            by_model: new_model_index(),
            allow_unsigned,
            join_secret,
            match_counter: 0,
        }
    }

    pub open spec fn spec_is_newcomer(self, peer: Seq<char>) -> bool {
        match self.ledger_map().get(peer) {
            Some(e) => e.audits_total < NEWCOMER_AUDIT_THRESHOLD,
            None => true,
        }
    }

    pub open spec fn spec_reputation_ppm(self, peer: Seq<char>) -> u32 {
        match self.ledger_map().get(peer) {
            Some(e) => e.reputation_ppm,
            None => REPUTATION_ONE,
        }
    }

    pub open spec fn spec_consumer_allowed(self, consumer: Seq<char>) -> bool {
        match self.ledger_map().get(consumer) {
            None => true,
            Some(e) => e.consumed < NEWCOMER_GRACE_TOKENS || e.spec_ratio_at_least(
                MIN_RATIO_NUM as nat,
                MIN_RATIO_DEN as nat,
            ),
        }
    }

    /// Ensure a ledger row exists for a peer (no change if already present).
    pub fn touch_ledger_at(&mut self, peer: &str, now: u64)
        ensures
            old(self).touched(*final(self), peer@, now),
            final(self).index_map() == old(self).index_map(),
            final(self).counter() == old(self).counter(),
    {
        if !ledger_contains(&self.ledger, peer) {
            let id = peer.to_owned();
            ledger_insert(&mut self.ledger, id, LedgerEntry::new(peer.to_owned(), now));
        }
    }

    pub fn reputation_ppm(&self, peer: &str) -> (r: u32)
        ensures
            r == self.spec_reputation_ppm(peer@),
    {
        match ledger_get(&self.ledger, peer) {
            Some(e) => e.reputation_ppm,
            None => REPUTATION_ONE,
        }
    }

    pub fn is_newcomer(&self, peer: &str) -> (r: bool)
        ensures
            r == self.spec_is_newcomer(peer@),
    {
        match ledger_get(&self.ledger, peer) {
            Some(e) => e.audits_total < NEWCOMER_AUDIT_THRESHOLD,
            None => true,
        }
    }

    /// Is the consumer allowed to leech right now? Newcomers within the grace
    /// allowance always pass; past that, the ratio must clear the minimum.
    pub fn consumer_allowed(&self, consumer: &str) -> (r: bool)
        ensures
            r == self.spec_consumer_allowed(consumer@),
    {
        match ledger_get(&self.ledger, consumer) {
            None => true,
            Some(e) => e.consumed < NEWCOMER_GRACE_TOKENS || e.ratio_at_least(
                MIN_RATIO_NUM,
                MIN_RATIO_DEN,
            ),
        }
    }
}


/// Milliseconds elapsed from `then` to `now`, saturating at zero.
pub open spec fn age(now: u64, then: u64) -> int {
    if now >= then {
        now - then
    } else {
        0
    }
}

/// A provider is live when it was heard from recently and is not full.
pub open spec fn is_live(p: Provider, now: u64) -> bool {
    age(now, p.last_seen) < HEARTBEAT_TTL_MS && p.hb.in_flight < p.hb.capacity
}

/// A requested model matches an offer when the names are equal; a requested
/// quant must match too, otherwise any quant is fine.
pub open spec fn spec_offer_matches(req: ModelId, offer: ModelId) -> bool {
    req.name@ == offer.name@ && match req.quant {
        None => true,
        Some(q) => offer.quant matches Some(oq) && oq@ == q@,
    }
}

/// Index of the first offer that matches `req`.
pub open spec fn first_offer(offers: Seq<ModelOffer>, req: ModelId) -> Option<int> {
    if exists|i: int| 0 <= i < offers.len() && spec_offer_matches(req, #[trigger] offers[i].model) {
        Some(
            choose|i: int|
                0 <= i < offers.len() && spec_offer_matches(req, offers[i].model) && forall|j: int|
                    0 <= j < i ==> !spec_offer_matches(req, #[trigger] offers[j].model),
        )
    } else {
        None
    }
}

fn opt_str_eq(a: &Option<String>, b: &String) -> (r: bool)
    ensures
        r == (a matches Some(x) && x@ == b@),
{
    match a {
        Some(x) => str_eq(x.as_str(), b.as_str()),
        None => false,
    }
}

/// Whether an offer serves the requested model.
pub fn offer_matches(req: &ModelId, offer: &ModelId) -> (r: bool)
    ensures
        r == spec_offer_matches(*req, *offer),
{
    if !str_eq(req.name.as_str(), offer.name.as_str()) {
        return false;
    }
    match &req.quant {
        None => true,
        Some(q) => opt_str_eq(&offer.quant, q),
    }
}

fn find_offer(offers: &Vec<ModelOffer>, req: &ModelId) -> (r: Option<usize>)
    ensures
        match r {
            Some(i) => i < offers@.len() && first_offer(offers@, *req) == Some(i as int),
            None => first_offer(offers@, *req) is None,
        },
{
    let mut i: usize = 0;
    while i < offers.len()
        invariant
            i <= offers@.len(),
            forall|j: int| 0 <= j < i ==> !spec_offer_matches(*req, #[trigger] offers@[j].model),
        decreases offers@.len() - i,
    {
        if offer_matches(req, &offers[i].model) {
            assert(spec_offer_matches(*req, offers@[i as int].model));
            return Some(i);
        }
        i = i + 1;
    }
    None
}

/// A live provider gathered during matchmaking.
#[derive(Debug)]
pub struct Candidate {
    pub peer: String,
    pub addrs: Vec<String>,
    pub model: ModelId,
    pub newcomer: bool,
    pub tps_milli: u64,
    pub caps_ok: bool,
}

/// How many index entries a scan looks at: it stops once `MATCH_SAMPLE`
/// candidates were found, after `MATCH_MAX_SCAN` entries, or at the end.
pub open spec fn scan_length(peers: Seq<String>, f: spec_fn(String) -> Option<Candidate>) -> int {
    let lim = if peers.len() < MATCH_MAX_SCAN {
        peers.len() as int
    } else {
        MATCH_MAX_SCAN as int
    };
    if exists|n: int| 0 <= n <= lim && #[trigger] peers.take(n).filter_map(f).len() == MATCH_SAMPLE {
        choose|n: int|
            0 <= n <= lim && peers.take(n).filter_map(f).len() == MATCH_SAMPLE && forall|m: int|
                0 <= m < n ==> #[trigger] peers.take(m).filter_map(f).len() < MATCH_SAMPLE
    } else {
        lim
    }
}

/// The texts of a list of peer ids.
pub open spec fn peer_texts(s: Seq<String>) -> Seq<Seq<char>> {
    s.map_values(|p: String| p@)
}

/// The capability filter with fallback: keep only the candidates meeting the
/// required caps when at least one does, else keep them all.
pub open spec fn caps_filter(cands: Seq<Candidate>) -> Seq<Candidate> {
    if exists|i: int| 0 <= i < cands.len() && #[trigger] cands[i].caps_ok {
        cands.filter(|c: Candidate| c.caps_ok)
    } else {
        cands
    }
}

impl State {
    /// The candidate a peer id yields for this request, if it yields one: not
    /// the consumer, present in the directory, live, and offering the model.
    pub open spec fn candidate_of(
        self,
        pid: String,
        req: ModelId,
        consumer: Seq<char>,
        require: ModelCaps,
        now: u64,
    ) -> Option<Candidate> {
        if pid@ == consumer {
            None
        } else {
            match self.provider_map().get(pid@) {
                Some(p) => if is_live(p, now) {
                    match first_offer(p.hb.offers@, req) {
                        Some(i) => Some(
                            Candidate {
                                peer: pid,
                                addrs: p.hb.multiaddrs,
                                model: p.hb.offers@[i].model,
                                newcomer: self.spec_is_newcomer(pid@),
                                tps_milli: p.hb.offers@[i].tokens_per_sec_milli,
                                caps_ok: p.hb.offers@[i].caps.spec_satisfies(require),
                            },
                        ),
                        None => None,
                    }
                } else {
                    None
                },
                None => None,
            }
        }
    }

    /// An indexed peer that has vanished from the directory.
    pub open spec fn is_stale(self, pid: String, consumer: Seq<char>) -> bool {
        pid@ != consumer && !self.provider_map().dom().contains(pid@)
    }

    pub open spec fn cand_fn(self, req: ModelId, consumer: Seq<char>, require: ModelCaps, now: u64) -> spec_fn(String) -> Option<Candidate> {
        |pid: String| self.candidate_of(pid, req, consumer, require, now)
    }

    /// The candidates a scan over `peers` (in that order) gathers, before the
    /// capability filter.
    pub open spec fn scanned(
        self,
        peers: Seq<String>,
        req: ModelId,
        consumer: Seq<char>,
        require: ModelCaps,
        now: u64,
    ) -> Seq<Candidate> {
        let f = self.cand_fn(req, consumer, require, now);
        peers.take(scan_length(peers, f)).filter_map(f)
    }

    /// The vanished peers a scan over `peers` finds (they are pruned from the
    /// index).
    pub open spec fn scanned_stale(
        self,
        peers: Seq<String>,
        req: ModelId,
        consumer: Seq<char>,
        require: ModelCaps,
        now: u64,
    ) -> Seq<String> {
        let f = self.cand_fn(req, consumer, require, now);
        peers.take(scan_length(peers, f)).filter(|pid: String| self.is_stale(pid, consumer))
    }

    /// Sampling core over the index entries `peers` of `req.name`, in the
    /// given order: take a bounded number of live, non-full candidates (never
    /// the consumer itself), prune vanished peers from the index, then apply
    /// the capability filter with fallback.
    pub fn sample_from(
        &mut self,
        peers: &Vec<String>,
        req: &ModelId,
        consumer: &str,
        require: &ModelCaps,
        now: u64,
    ) -> (r: Vec<Candidate>)
        requires
            old(self).index_map().dom().contains(req.name@),
        ensures
            r@ == caps_filter(old(self).scanned(peers@, *req, consumer@, *require, now)),
            r@.len() <= MATCH_SAMPLE,
            final(self).index_map() == old(self).index_map().insert(
                req.name@,
                old(self).index_map()[req.name@].difference(
                    old(self).scanned_stale(peers@, *req, consumer@, *require, now).map_values(
                        |p: String| p@,
                    ).to_set(),
                ),
            ),
            final(self).provider_map() == old(self).provider_map(),
            final(self).ledger_map() == old(self).ledger_map(),
            final(self).job_map() == old(self).job_map(),
            final(self).counter() == old(self).counter(),
    {
        let ghost f = self.cand_fn(*req, consumer@, *require, now);
        let ghost g = |pid: String| self.is_stale(pid, consumer@);
        let mut cands: Vec<Candidate> = Vec::new();
        let mut stale: Vec<String> = Vec::new();
        let mut k: usize = 0;
        while k < peers.len() && cands.len() < MATCH_SAMPLE && k < MATCH_MAX_SCAN
            invariant
                k <= peers@.len(),
                k <= MATCH_MAX_SCAN,
                f == self.cand_fn(*req, consumer@, *require, now),
                g == (|pid: String| self.is_stale(pid, consumer@)),
                cands@ == peers@.take(k as int).filter_map(f),
                cands@.len() <= MATCH_SAMPLE,
                stale@ == peers@.take(k as int).filter(g),
                forall|m: int| 0 <= m < k ==> #[trigger] peers@.take(m).filter_map(f).len() < MATCH_SAMPLE,
            decreases peers@.len() - k,
        {
            proof {
                peers@.lemma_filter_map_take_succ(f, k as int);
                assert(peers@.take(k + 1) == peers@.take(k as int).push(peers@[k as int]));
                peers@.take(k as int).lemma_filter_push(peers@[k as int], g);
            }
            let pid = &peers[k];
            if !str_eq(pid.as_str(), consumer) {
                match provider_get(&self.providers, pid.as_str()) {
                    Some(p) => {
                        if now.saturating_sub(p.last_seen) < HEARTBEAT_TTL_MS && p.hb.in_flight
                            < p.hb.capacity {
                            match find_offer(&p.hb.offers, req) {
                                Some(i) => {
                                    let newcomer = self.is_newcomer(pid.as_str());
                                    let model = clone_model(&p.hb.offers[i].model);
                                    let tps_milli = p.hb.offers[i].tokens_per_sec_milli;
                                    let caps_ok = p.hb.offers[i].caps.satisfies(require);
                                    let c = Candidate {
                                        peer: pid.clone(),
                                        addrs: p.hb.multiaddrs,
                                        model,
                                        newcomer,
                                        tps_milli,
                                        caps_ok,
                                    };
                                    cands.push(c);
                                },
                                None => {},
                            }
                        }
                    },
                    None => {
                        stale.push(pid.clone());
                    },
                }
            }
            k = k + 1;
        }
        proof {
            let lim = if peers@.len() < MATCH_MAX_SCAN {
                peers@.len() as int
            } else {
                MATCH_MAX_SCAN as int
            };
            if cands@.len() >= MATCH_SAMPLE {
                assert(peers@.take(k as int).filter_map(f).len() == MATCH_SAMPLE);
                assert(scan_length(peers@, f) == k);
            } else {
                assert forall|n: int| 0 <= n <= lim implies #[trigger] peers@.take(n).filter_map(f).len() != MATCH_SAMPLE by {
                    if n < k {
                    } else {
                        assert(n == k);
                    }
                }
                assert(scan_length(peers@, f) == lim);
            }
        }
        // prune vanished peers from the index
        let ghost idx0 = self.index_map();
        proof {
            assert(stale@.take(0).map_values(|p: String| p@).to_set() =~= Set::empty());
            assert(idx0[req.name@].difference(Set::empty()) =~= idx0[req.name@]);
            assert(idx0.insert(req.name@, idx0[req.name@]) =~= idx0);
        }
        let mut j: usize = 0;
        while j < stale.len()
            invariant
                j <= stale@.len(),
                idx0.dom().contains(req.name@),
                self.index_map() == idx0.insert(
                    req.name@,
                    idx0[req.name@].difference(stale@.take(j as int).map_values(|p: String| p@).to_set()),
                ),
                self.provider_map() == old(self).provider_map(),
                self.ledger_map() == old(self).ledger_map(),
                self.job_map() == old(self).job_map(),
                self.counter() == old(self).counter(),
            decreases stale@.len() - j,
        {
            index_remove(&mut self.by_model, req.name.as_str(), stale[j].as_str());
            proof {
                let before = stale@.take(j as int).map_values(|p: String| p@).to_set();
                let after = stale@.take(j + 1).map_values(|p: String| p@).to_set();
                assert(stale@.take(j + 1).map_values(|p: String| p@) == stale@.take(j as int).map_values(|p: String| p@).push(stale@[j as int]@));
                stale@.take(j as int).map_values(|p: String| p@).lemma_push_to_set_commute(stale@[j as int]@);
                assert(after == before.insert(stale@[j as int]@));
                assert(idx0[req.name@].difference(before).remove(stale@[j as int]@) =~= idx0[req.name@].difference(after));
                assert(self.index_map() =~= idx0.insert(req.name@, idx0[req.name@].difference(after)));
            }
            j = j + 1;
        }
        assert(stale@.take(stale@.len() as int) == stale@);
        // capability filter with fallback
        let mut any_ok = false;
        let mut q: usize = 0;
        while q < cands.len()
            invariant
                q <= cands@.len(),
                any_ok == exists|i: int| 0 <= i < q && #[trigger] cands@[i].caps_ok,
            decreases cands@.len() - q,
        {
            if cands[q].caps_ok {
                any_ok = true;
            }
            q = q + 1;
        }
        if !any_ok {
            return cands;
        }
        proof {
            cands@.lemma_filter_len(|c: Candidate| c.caps_ok);
        }
        // keep only the capable candidates, preserving order (moved, not copied)
        let ghost all = cands@;
        let mut rev: Vec<Candidate> = Vec::new();
        while cands.len() > 0
            invariant
                all == cands@ + rev@.reverse(),
            decreases cands@.len(),
        {
            let c = cands.pop().unwrap();
            proof {
                assert(rev@.push(c).reverse() =~= seq![c] + rev@.reverse());
            }
            rev.push(c);
        }
        assert(cands@ == Seq::<Candidate>::empty());
        assert(all =~= rev@.reverse());
        let mut kept: Vec<Candidate> = Vec::new();
        while rev.len() > 0
            invariant
                rev@.len() <= all.len(),
                rev@.reverse() == all.skip(all.len() - rev@.len()),
                kept@ == all.take(all.len() - rev@.len()).filter(|c: Candidate| c.caps_ok),
            decreases rev@.len(),
        {
            let ghost n = all.len() - rev@.len();
            let ghost before = rev@;
            let c = rev.pop().unwrap();
            proof {
                assert(before == rev@.push(c));
                assert(before.reverse() =~= seq![c] + rev@.reverse());
                assert(all.skip(n) == seq![c] + rev@.reverse());
                assert(all.skip(n)[0] == c);
                assert(c == all[n]);
                assert forall|i: int| 0 <= i < rev@.len() implies rev@.reverse()[i] == all.skip(n + 1)[i] by {
                    assert(all.skip(n)[i + 1] == (seq![c] + rev@.reverse())[i + 1]);
                }
                assert(rev@.reverse() =~= all.skip(n + 1));
                assert(all.take(n + 1) == all.take(n).push(all[n]));
                all.take(n).lemma_filter_push(all[n], |c: Candidate| c.caps_ok);
            }
            if c.caps_ok {
                kept.push(c);
            }
        }
        assert(all.take(all.len() as int) == all);
        kept
    }
}


/// SplitMix64: a deterministic mixing of a seed into a pseudo-random value.
pub open spec fn spec_splitmix64(seed: u64) -> u64 {
    let x0 = seed.wrapping_add(0x9E37_79B9_7F4A_7C15u64);
    let x1 = (x0 ^ (x0 >> 30u64)).wrapping_mul(0xBF58_476D_1CE4_E5B9u64);
    let x2 = (x1 ^ (x1 >> 27u64)).wrapping_mul(0x94D0_49BB_1331_11EBu64);
    x2 ^ (x2 >> 31u64)
}

/// Deterministic PRNG step (SplitMix64).
pub fn splitmix64(seed: u64) -> (r: u64)
    ensures
        r == spec_splitmix64(seed),
{
    let mut x = seed.wrapping_add(0x9E37_79B9_7F4A_7C15u64);
    x = (x ^ (x >> 30u64)).wrapping_mul(0xBF58_476D_1CE4_E5B9u64);
    x = (x ^ (x >> 27u64)).wrapping_mul(0x94D0_49BB_1331_11EBu64);
    x ^ (x >> 31u64)
}

/// Undo SplitMix64: each of its steps (an addition, two xor-shift and
/// odd-multiplier rounds, a final xor-shift) has an inverse.
pub open spec fn spec_unsplitmix64(r: u64) -> u64 {
    let x2 = r ^ (r >> 31u64) ^ (r >> 62u64);
    let y1 = x2.wrapping_mul(0x3196_42B2_D24D_8EC3u64);
    let x1 = y1 ^ (y1 >> 27u64) ^ (y1 >> 54u64);
    let y0 = x1.wrapping_mul(0x96DE_1B17_3F11_9089u64);
    let x0 = y0 ^ (y0 >> 30u64) ^ (y0 >> 60u64);
    x0.wrapping_sub(0x9E37_79B9_7F4A_7C15u64)
}

/// Multiplying by `c` and then by `d` is the identity modulo 2^64 when
/// `c * d` is 1 modulo 2^64.
proof fn lemma_mul_undone(x: u64, c: u64, d: u64, k: int)
    requires
        c as int * d as int == 1 + k * 0x1_0000_0000_0000_0000int,
        k >= 0,
    ensures
        x.wrapping_mul(c).wrapping_mul(d) == x,
{
    let m: int = 0x1_0000_0000_0000_0000int;
    let xc: int = x as int * c as int;
    vstd::arithmetic::div_mod::lemma_mul_mod_noop_left(xc, d as int, m);
    assert(xc * d as int == x as int + (x as int * k) * m) by (nonlinear_arith)
        requires
            xc == x as int * c as int,
            c as int * d as int == 1 + k * m,
    ;
    vstd::arithmetic::div_mod::lemma_mod_multiples_vanish(x as int * k, x as int, m);
    vstd::arithmetic::div_mod::lemma_small_mod(x as nat, m as nat);
}

/// SplitMix64 is a bijection on `u64`: undoing it gives the seed back, so
/// two different seeds never mix to the same value.
pub proof fn lemma_splitmix64_bijective(a: u64, b: u64)
    ensures
        spec_unsplitmix64(spec_splitmix64(a)) == a,
        a != b ==> spec_splitmix64(a) != spec_splitmix64(b),
{
    lemma_splitmix64_undone(a);
    lemma_splitmix64_undone(b);
}

proof fn lemma_splitmix64_undone(s: u64)
    ensures
        spec_unsplitmix64(spec_splitmix64(s)) == s,
{
    let x0 = s.wrapping_add(0x9E37_79B9_7F4A_7C15u64);
    let a0 = x0 ^ (x0 >> 30u64);
    let x1 = a0.wrapping_mul(0xBF58_476D_1CE4_E5B9u64);
    let a1 = x1 ^ (x1 >> 27u64);
    let x2 = a1.wrapping_mul(0x94D0_49BB_1331_11EBu64);
    let r = x2 ^ (x2 >> 31u64);
    assert(r ^ (r >> 31u64) ^ (r >> 62u64) == x2) by (bit_vector)
        requires
            r == x2 ^ (x2 >> 31u64),
    ;
    lemma_mul_undone(a1, 0x94D0_49BB_1331_11EBu64, 0x3196_42B2_D24D_8EC3u64, 2077064247507883091);
    assert(a1 ^ (a1 >> 27u64) ^ (a1 >> 54u64) == x1) by (bit_vector)
        requires
            a1 == x1 ^ (x1 >> 27u64),
    ;
    lemma_mul_undone(a0, 0xBF58_476D_1CE4_E5B9u64, 0x96DE_1B17_3F11_9089u64, 8125545580553827436);
    assert(a0 ^ (a0 >> 30u64) ^ (a0 >> 60u64) == x0) by (bit_vector)
        requires
            a0 == x0 ^ (x0 >> 30u64),
    ;
    assert(spec_splitmix64(s) == r);
}

/// Sum of the first `n` weights.
pub open spec fn prefix_sum(w: Seq<u64>, n: int) -> nat
    decreases n,
{
    if n <= 0 || n > w.len() {
        0
    } else {
        prefix_sum(w, n - 1) + w[n - 1] as nat
    }
}

proof fn lemma_prefix_sum_mono(w: Seq<u64>, a: int, b: int)
    requires
        0 <= a <= b <= w.len(),
    ensures
        prefix_sum(w, a) <= prefix_sum(w, b),
    decreases b - a,
{
    if a < b {
        lemma_prefix_sum_mono(w, a, b - 1);
    }
}

/// The draw falls into bucket `i`: `splitmix64(seed) / u64::MAX * total` is
/// below the running sum of the first `i + 1` weights.
pub open spec fn lands_before(w: Seq<u64>, seed: u64, i: int) -> bool {
    (spec_splitmix64(seed) as nat) * prefix_sum(w, w.len() as int) < prefix_sum(w, i + 1) * (
    u64::MAX as nat)
}

/// The index a weighted draw picks: the first bucket the scaled draw lands
/// before, else the last; 0 when the weights are empty or all zero.
pub open spec fn spec_weighted_index(w: Seq<u64>, seed: u64) -> int {
    if prefix_sum(w, w.len() as int) == 0 {
        0
    } else if exists|i: int| 0 <= i < w.len() && #[trigger] lands_before(w, seed, i) {
        choose|i: int|
            0 <= i < w.len() && lands_before(w, seed, i) && forall|j: int|
                0 <= j < i ==> !#[trigger] lands_before(w, seed, j)
    } else {
        w.len() - 1
    }
}

/// Pick an index with probability proportional to `weights`, seeded by `seed`
/// (deterministic for a given seed).
pub fn weighted_index(weights: &[u64], seed: u64) -> (r: usize)
    requires
        prefix_sum(weights@, weights@.len() as int) <= u64::MAX,
    ensures
        r == spec_weighted_index(weights@, seed),
        weights@.len() > 0 ==> r < weights@.len(),
{
    let ghost w = weights@;
    let mut total: u64 = 0;
    let mut i: usize = 0;
    while i < weights.len()
        invariant
            w == weights@,
            i <= w.len(),
            total == prefix_sum(w, i as int),
            prefix_sum(w, w.len() as int) <= u64::MAX,
        decreases w.len() - i,
    {
        proof {
            lemma_prefix_sum_mono(w, i + 1, w.len() as int);
        }
        total = total + weights[i];
        i = i + 1;
    }
    if total == 0 {
        return 0;
    }
    let s: u128 = splitmix64(seed) as u128;
    let t: u128 = total as u128;
    assert(s * t <= u64::MAX * u64::MAX) by (nonlinear_arith)
        requires
            s <= u64::MAX,
            t <= u64::MAX,
    ;
    let lhs: u128 = s * t;
    let mut acc: u128 = 0;
    let mut i: usize = 0;
    while i < weights.len()
        invariant
            w == weights@,
            i <= w.len(),
            acc == prefix_sum(w, i as int),
            t == prefix_sum(w, w.len() as int),
            t <= u64::MAX,
            lhs == (spec_splitmix64(seed) as nat) * t,
            forall|j: int| 0 <= j < i ==> !#[trigger] lands_before(w, seed, j),
        decreases w.len() - i,
    {
        proof {
            lemma_prefix_sum_mono(w, i + 1, w.len() as int);
        }
        acc = acc + weights[i] as u128;
        let m: u128 = u64::MAX as u128;
        assert(acc * m <= u64::MAX * u64::MAX) by (nonlinear_arith)
            requires
                acc <= u64::MAX,
                m == u64::MAX,
        ;
        if lhs < acc * m {
            assert(lands_before(w, seed, i as int));
            return i;
        }
        i = i + 1;
    }
    weights.len() - 1
}

/// The weight clamp range for reputation, in parts per million.
pub const MIN_WEIGHT_REPUTATION_PPM: u32 = 50_000;

pub open spec fn clamp_reputation(ppm: u32) -> u64 {
    if ppm < MIN_WEIGHT_REPUTATION_PPM {
        MIN_WEIGHT_REPUTATION_PPM as u64
    } else if ppm > REPUTATION_ONE {
        REPUTATION_ONE as u64
    } else {
        ppm as u64
    }
}

/// Selection weight: clamped reputation scaled by a throughput factor between
/// 1x and 2x (unknown throughput is neutral). Units: ppm times 1e-5.
pub open spec fn spec_weight(rep_ppm: u32, tps_milli: u64) -> u64 {
    let capped = if tps_milli < TPS_CAP_MILLI {
        tps_milli
    } else {
        TPS_CAP_MILLI
    };
    (clamp_reputation(rep_ppm) * (TPS_CAP_MILLI + capped)) as u64
}

/// The audit slot: on every `AUDIT_EVERY`-th match, the newcomer at position
/// `counter mod #newcomers` among the newcomer candidates, if there is one.
pub open spec fn newcomer_positions(cands: Seq<Candidate>) -> Seq<int> {
    Seq::new(cands.len(), |i: int| i).filter(|i: int| cands[i].newcomer)
}

pub open spec fn audit_pick(cands: Seq<Candidate>, counter: u64) -> Option<int> {
    let pos = newcomer_positions(cands);
    if counter % AUDIT_EVERY == 0 && pos.len() > 0 {
        Some(pos[((counter as usize) % (pos.len() as usize)) as int])
    } else {
        None
    }
}

/// The tuple a chosen candidate is reported as.
pub open spec fn as_pick(c: Candidate, audit: bool) -> (String, Vec<String>, bool, ModelId) {
    (c.peer, c.addrs, audit, c.model)
}

impl State {
    pub open spec fn cand_weight(self, c: Candidate) -> u64 {
        spec_weight(self.spec_reputation_ppm(c.peer@), c.tps_milli)
    }

    pub open spec fn weights(self, cands: Seq<Candidate>) -> Seq<u64> {
        cands.map_values(|c: Candidate| self.cand_weight(c))
    }

    /// Which candidate a match picks, and whether it is an audit slot.
    pub open spec fn spec_pick(self, cands: Seq<Candidate>, counter: u64) -> (int, bool) {
        match audit_pick(cands, counter) {
            Some(i) => (i, true),
            None => (spec_weighted_index(self.weights(cands), counter), false),
        }
    }

    fn weight_of(&self, c: &Candidate) -> (r: u64)
        ensures
            r == self.cand_weight(*c),
            r <= 200_000_000_000,
    {
        let rep = self.reputation_ppm(c.peer.as_str());
        let clamped: u64 = if rep < MIN_WEIGHT_REPUTATION_PPM {
            MIN_WEIGHT_REPUTATION_PPM as u64
        } else if rep > REPUTATION_ONE {
            REPUTATION_ONE as u64
        } else {
            rep as u64
        };
        let capped: u64 = if c.tps_milli < TPS_CAP_MILLI {
            c.tps_milli
        } else {
            TPS_CAP_MILLI
        };
        assert(clamped * (TPS_CAP_MILLI + capped) <= 1_000_000 * 200_000) by (nonlinear_arith)
            requires
                clamped <= 1_000_000,
                capped <= 100_000,
                TPS_CAP_MILLI == 100_000,
        ;
        clamped * (TPS_CAP_MILLI + capped)
    }

    fn weights_of(&self, cands: &Vec<Candidate>) -> (r: Vec<u64>)
        requires
            cands@.len() <= MATCH_SAMPLE,
        ensures
            r@ == self.weights(cands@),
            prefix_sum(r@, r@.len() as int) <= u64::MAX,
    {
        let mut r: Vec<u64> = Vec::new();
        let mut i: usize = 0;
        while i < cands.len()
            invariant
                i <= cands@.len(),
                cands@.len() <= MATCH_SAMPLE,
                r@ == self.weights(cands@).take(i as int),
                r@.len() == i,
                prefix_sum(r@, i as int) <= i * 200_000_000_000,
            decreases cands@.len() - i,
        {
            let w = self.weight_of(&cands[i]);
            let ghost before = r@;
            r.push(w);
            proof {
                assert(r@ =~= self.weights(cands@).take(i + 1));
                assert(r@.drop_last() =~= before);
                lemma_prefix_sum_prefix(r@, i as int);
                assert(prefix_sum(r@, i + 1) == prefix_sum(before, i as int) + w);
                assert((i + 1) * 200_000_000_000 == i * 200_000_000_000 + 200_000_000_000) by (nonlinear_arith);
            }
            i = i + 1;
        }
        assert(i * 200_000_000_000 <= 32 * 200_000_000_000) by (nonlinear_arith)
            requires
                i <= 32,
        ;
        r
    }
}

proof fn lemma_prefix_sum_prefix(w: Seq<u64>, n: int)
    requires
        0 <= n < w.len(),
    ensures
        prefix_sum(w, n) == prefix_sum(w.drop_last(), n),
    decreases n,
{
    if n > 0 {
        lemma_prefix_sum_prefix(w, n - 1);
    }
}


impl State {
    /// The maps other than the index, and the counter, are untouched.
    pub open spec fn same_except_index(self, post: State) -> bool {
        &&& post.provider_map() == self.provider_map()
        &&& post.ledger_map() == self.ledger_map()
        &&& post.job_map() == self.job_map()
    }

    /// `r` and `post` are what sampling over `peers` (in that order) yields.
    pub open spec fn sampled(
        self,
        post: State,
        r: Seq<Candidate>,
        peers: Seq<String>,
        req: ModelId,
        consumer: Seq<char>,
        require: ModelCaps,
        now: u64,
    ) -> bool {
        &&& r == caps_filter(self.scanned(peers, req, consumer, require, now))
        &&& post.index_map() == self.index_map().insert(
            req.name@,
            self.index_map()[req.name@].difference(
                self.scanned_stale(peers, req, consumer, require, now).map_values(
                    |p: String| p@,
                ).to_set(),
            ),
        )
        &&& self.same_except_index(post)
    }

    /// `r` and `post` are what sampling yields for some order of the model's
    /// index entries (the index iterates in an unspecified order).
    pub open spec fn sample_result(
        self,
        post: State,
        r: Seq<Candidate>,
        req: ModelId,
        consumer: Seq<char>,
        require: ModelCaps,
        now: u64,
    ) -> bool {
        match self.index_map().get(req.name@) {
            None => r.len() == 0 && post.index_map() == self.index_map() && self.same_except_index(
                post,
            ),
            Some(set) => exists|peers: Seq<String>|
                #![trigger lists_set(peers, set)]
                lists_set(peers, set) && self.sampled(post, r, peers, req, consumer, require, now),
        }
    }

    proof fn lemma_sample_result_maps(
        self,
        a: State,
        b: State,
        r: Seq<Candidate>,
        req: ModelId,
        consumer: Seq<char>,
        require: ModelCaps,
        now: u64,
    )
        requires
            self.sample_result(a, r, req, consumer, require, now),
            a.provider_map() == b.provider_map(),
            a.ledger_map() == b.ledger_map(),
            a.job_map() == b.job_map(),
            a.index_map() == b.index_map(),
        ensures
            self.sample_result(b, r, req, consumer, require, now),
    {
        match self.index_map().get(req.name@) {
            None => {},
            Some(set) => {
                let peers = choose|peers: Seq<String>|
                    #![trigger lists_set(peers, set)]
                    lists_set(peers, set) && self.sampled(a, r, peers, req, consumer, require, now);
                assert(lists_set(peers, set) && self.sampled(b, r, peers, req, consumer, require, now));
            },
        }
    }

    /// Gather the candidates for a request at time `now` (see `sample_from`).
    pub fn sample_candidates_at(
        &mut self,
        req: &ModelId,
        consumer: &str,
        require: &ModelCaps,
        now: u64,
    ) -> (r: Vec<Candidate>)
        ensures
            old(self).sample_result(*final(self), r@, *req, consumer@, *require, now),
            r@.len() <= MATCH_SAMPLE,
            final(self).counter() == old(self).counter(),
    {
        match index_peers(&self.by_model, req.name.as_str()) {
            None => Vec::new(),
            Some(peers) => {
                let ghost set = self.index_map()[req.name@];
                let r = self.sample_from(&peers, req, consumer, require, now);
                assert(lists_set(peers@, set));
                r
            },
        }
    }

    /// Choose a provider satisfying `require`, at time `now`. Every
    /// `AUDIT_EVERY`-th match is reserved for a newcomer when one is among the
    /// candidates; otherwise a throughput and reputation weighted draw.
    pub fn select_provider_req_at(
        &mut self,
        req: &ModelId,
        consumer: &str,
        require: &ModelCaps,
        now: u64,
    ) -> (r: Option<(String, Vec<String>, bool, ModelId)>)
        ensures
            old(self).selected(*final(self), r, *req, consumer@, *require, now),
    {
        let mut cands = self.sample_candidates_at(req, consumer, require, now);
        let ghost mid = *self;
        let ghost all = cands@;
        if cands.len() == 0 {
            return None;
        }
        let counter = self.match_counter.wrapping_add(1);
        self.match_counter = counter;
        assert(mid.ledger_map() == self.ledger_map());
        if counter % AUDIT_EVERY == 0 {
            let mut pos: Vec<usize> = Vec::new();
            let mut i: usize = 0;
            while i < cands.len()
                invariant
                    i <= cands@.len(),
                    pos@.map_values(|x: usize| x as int) == Seq::new(i as nat, |j: int| j).filter(
                        |j: int| cands@[j].newcomer,
                    ),
                    forall|m: int| 0 <= m < pos@.len() ==> #[trigger] pos@[m] < i,
                decreases cands@.len() - i,
            {
                proof {
                    assert(Seq::new((i + 1) as nat, |j: int| j) =~= Seq::new(i as nat, |j: int| j).push(i as int));
                    Seq::new(i as nat, |j: int| j).lemma_filter_push(i as int, |j: int| cands@[j].newcomer);
                }
                if cands[i].newcomer {
                    let ghost before = pos@;
                    pos.push(i);
                    proof {
                        assert(pos@.map_values(|x: usize| x as int) =~= before.map_values(|x: usize| x as int).push(i as int));
                    }
                }
                i = i + 1;
            }
            proof {
                assert(pos@.map_values(|x: usize| x as int) == newcomer_positions(cands@));
                assert(pos@.map_values(|x: usize| x as int).len() == pos@.len());
            }
            if pos.len() > 0 {
                let k = (#[verifier::truncate] (counter as usize)) % pos.len();
                let pick = pos[k];
                proof {
                    assert(pos@.map_values(|x: usize| x as int)[k as int] == pick as int);
                    assert(audit_pick(cands@, counter) == Some(pick as int));
                }
                let c = cands.swap_remove(pick);
                proof {
                    old(self).lemma_sample_result_maps(mid, *self, all, *req, consumer@, *require, now);
                }
                return Some((c.peer, c.addrs, true, c.model));
            }
            proof {
                assert(audit_pick(cands@, counter) is None);
            }
        }
        let weights = self.weights_of(&cands);
        proof {
            assert(old(self).weights(all) =~= self.weights(all));
        }
        let idx = weighted_index(weights.as_slice(), counter);
        assert(audit_pick(all, counter) is None);
        assert(old(self).spec_pick(all, counter) == (idx as int, false));
        let c = cands.swap_remove(idx);
        proof {
            old(self).lemma_sample_result_maps(mid, *self, all, *req, consumer@, *require, now);
        }
        Some((c.peer, c.addrs, false, c.model))
    }
}


/// The elements of `v` in reverse order (moved, not copied).
pub fn into_reversed<T>(v: Vec<T>) -> (r: Vec<T>)
    ensures
        r@ == v@.reverse(),
{
    let mut v = v;
    let ghost all = v@;
    let mut r: Vec<T> = Vec::new();
    while v.len() > 0
        invariant
            all == v@ + r@.reverse(),
        decreases v@.len(),
    {
        let x = v.pop().unwrap();
        proof {
            assert(r@.push(x).reverse() =~= seq![x] + r@.reverse());
        }
        r.push(x);
    }
    assert(all =~= r@.reverse());
    assert(r@.reverse().reverse() =~= r@);
    r
}

/// Where a weight `w` goes in a list kept in descending weight order: after
/// every entry weighing at least `w` (so equal weights keep arrival order).
pub open spec fn insert_pos(sorted: Seq<(u64, Candidate)>, w: u64) -> int {
    if exists|p: int| 0 <= p < sorted.len() && #[trigger] sorted[p].0 < w {
        choose|p: int|
            0 <= p < sorted.len() && sorted[p].0 < w && forall|q: int|
                0 <= q < p ==> #[trigger] sorted[q].0 >= w
    } else {
        sorted.len() as int
    }
}

/// Stable sort by descending weight (insertion order on ties).
pub open spec fn sort_desc(s: Seq<(u64, Candidate)>) -> Seq<(u64, Candidate)>
    decreases s.len(),
{
    if s.len() == 0 {
        s
    } else {
        let rest = sort_desc(s.drop_last());
        rest.insert(insert_pos(rest, s.last().0), s.last())
    }
}

impl State {
    pub open spec fn with_weights(self, cands: Seq<Candidate>) -> Seq<(u64, Candidate)> {
        cands.map_values(|c: Candidate| (self.cand_weight(c), c))
    }

    /// The first `k` candidates by descending weight, as reported.
    pub open spec fn best_k(self, cands: Seq<Candidate>, k: int) -> Seq<(String, Vec<String>, bool, ModelId)> {
        let sorted = sort_desc(self.with_weights(cands));
        let n = if k < sorted.len() {
            k
        } else {
            sorted.len() as int
        };
        sorted.take(n).map_values(|p: (u64, Candidate)| as_pick(p.1, p.1.newcomer))
    }

    /// Fan-out at time `now`: up to `k` distinct providers satisfying
    /// `require`, best-first by throughput and reputation weight.
    pub fn select_providers_req_at(
        &mut self,
        req: &ModelId,
        consumer: &str,
        k: usize,
        require: &ModelCaps,
        now: u64,
    ) -> (r: Vec<(String, Vec<String>, bool, ModelId)>)
        ensures
            old(self).selected_many(*final(self), r@, *req, consumer@, k as int, *require, now),
    {
        let cands = self.sample_candidates_at(req, consumer, require, now);
        let ghost all = cands@;
        let weights = self.weights_of(&cands);
        proof {
            assert(old(self).weights(all) =~= self.weights(all));
            assert(old(self).with_weights(all) =~= self.with_weights(all));
        }
        let ghost pairs = old(self).with_weights(all);
        let mut pending = into_reversed(cands);
        let mut sorted: Vec<(u64, Candidate)> = Vec::new();
        let mut i: usize = 0;
        while pending.len() > 0
            invariant
                i <= all.len(),
                all.len() <= MATCH_SAMPLE,
                pending@.len() == all.len() - i,
                pending@.reverse() == all.skip(i as int),
                weights@ == self.weights(all),
                pairs == old(self).with_weights(all),
                pairs == self.with_weights(all),
                sorted@ == sort_desc(pairs.take(i as int)),
            decreases pending@.len(),
        {
            let ghost before = pending@;
            let c = pending.pop().unwrap();
            proof {
                assert(before == pending@.push(c));
                assert(before.reverse() =~= seq![c] + pending@.reverse());
                assert(all.skip(i as int)[0] == c);
                assert forall|j: int| 0 <= j < pending@.len() implies pending@.reverse()[j] == all.skip(i + 1)[j] by {
                    assert(all.skip(i as int)[j + 1] == (seq![c] + pending@.reverse())[j + 1]);
                }
                assert(pending@.reverse() =~= all.skip(i + 1));
            }
            let w = weights[i];
            let mut p: usize = 0;
            while p < sorted.len() && sorted[p].0 >= w
                invariant
                    p <= sorted@.len(),
                    forall|q: int| 0 <= q < p ==> #[trigger] sorted@[q].0 >= w,
                decreases sorted@.len() - p,
            {
                p = p + 1;
            }
            proof {
                assert(pairs[i as int] == (w, c));
                assert(pairs.take(i + 1).drop_last() =~= pairs.take(i as int));
                assert(pairs.take(i + 1).last() == (w, c));
                assert(insert_pos(sorted@, w) == p);
            }
            sorted.insert(p, (w, c));
            i = i + 1;
        }
        assert(pairs.take(all.len() as int) =~= pairs);
        sorted.truncate(k);
        let mut rest = into_reversed(sorted);
        let ghost top = rest@.reverse();
        let mut r: Vec<(String, Vec<String>, bool, ModelId)> = Vec::new();
        while rest.len() > 0
            invariant
                rest@.len() <= top.len(),
                rest@.reverse() == top.skip(top.len() - rest@.len()),
                r@ == top.take(top.len() - rest@.len()).map_values(
                    |p: (u64, Candidate)| as_pick(p.1, p.1.newcomer),
                ),
            decreases rest@.len(),
        {
            let ghost n = top.len() - rest@.len();
            let ghost before = rest@;
            let (_, c) = rest.pop().unwrap();
            proof {
                assert(before.reverse() =~= seq![before.last()] + rest@.reverse());
                assert(top.skip(n)[0] == before.last());
                assert(top[n] == before.last());
                assert forall|j: int| 0 <= j < rest@.len() implies rest@.reverse()[j] == top.skip(n + 1)[j] by {
                    assert(top.skip(n)[j + 1] == (seq![before.last()] + rest@.reverse())[j + 1]);
                }
                assert(rest@.reverse() =~= top.skip(n + 1));
            }
            let newcomer = c.newcomer;
            r.push((c.peer, c.addrs, newcomer, c.model));
            proof {
                assert(top.take(n + 1) =~= top.take(n).push(top[n]));
            }
        }
        assert(top.take(top.len() as int) =~= top);
        proof {
            old(self).lemma_sample_result_maps(*self, *self, all, *req, consumer@, *require, now);
            assert(r@ =~= old(self).best_k(all, k as int));
            assert(old(self).sample_result(*self, all, *req, consumer@, *require, now));
        }
        r
    }
}


/// The index after `peer` is listed under every model name in `names`.
pub open spec fn with_peer_listed(
    idx: Map<Seq<char>, Set<Seq<char>>>,
    names: Set<Seq<char>>,
    peer: Seq<char>,
) -> Map<Seq<char>, Set<Seq<char>>> {
    Map::new(
        |n: Seq<char>| idx.dom().contains(n) || names.contains(n),
        |n: Seq<char>|
            if names.contains(n) {
                (if idx.dom().contains(n) {
                    idx[n]
                } else {
                    Set::empty()
                }).insert(peer)
            } else {
                idx[n]
            },
    )
}

/// The model names a heartbeat offers.
pub open spec fn offered_names(offers: Seq<ModelOffer>) -> Set<Seq<char>> {
    offers.map_values(|o: ModelOffer| o.model.name@).to_set()
}

/// A job has expired when it is older than `max_age_ms` at `now`.
pub open spec fn job_expired(j: Job, max_age_ms: u64, now: u64) -> bool {
    age(now, j.created) > max_age_ms
}

impl State {
    /// Register (or refresh) a provider at time `now`: ensure its ledger row,
    /// list it under every model it offers, and record its heartbeat.
    pub fn register_at(&mut self, hb: Heartbeat, now: u64)
        ensures
            old(self).registered(*final(self), hb, now),
    {
        self.touch_ledger_at(hb.peer_id.as_str(), now);
        let ghost idx0 = self.index_map();
        proof {
            assert(hb.offers@.take(0).map_values(|o: ModelOffer| o.model.name@).to_set() =~= Set::empty());
            assert(with_peer_listed(idx0, Set::empty(), hb.peer_id@) =~= idx0);
        }
        let mut i: usize = 0;
        while i < hb.offers.len()
            invariant
                i <= hb.offers@.len(),
                self.index_map() == with_peer_listed(
                    idx0,
                    hb.offers@.take(i as int).map_values(|o: ModelOffer| o.model.name@).to_set(),
                    hb.peer_id@,
                ),
                self.provider_map() == old(self).provider_map(),
                self.job_map() == old(self).job_map(),
                self.counter() == old(self).counter(),
                self.ledger_map().dom().contains(hb.peer_id@),
                self.ledger_map() == (if old(self).ledger_map().dom().contains(hb.peer_id@) {
                    old(self).ledger_map()
                } else {
                    old(self).ledger_map().insert(hb.peer_id@, self.ledger_map()[hb.peer_id@])
                }),
                !old(self).ledger_map().dom().contains(hb.peer_id@) ==> is_fresh_entry(
                    self.ledger_map()[hb.peer_id@],
                    hb.peer_id@,
                    now,
                ),
            decreases hb.offers@.len() - i,
        {
            let ghost names = hb.offers@.take(i as int).map_values(|o: ModelOffer| o.model.name@);
            let ghost prev = self.index_map();
            index_add(&mut self.by_model, hb.offers[i].model.name.clone(), hb.peer_id.clone());
            proof {
                let nm = hb.offers@[i as int].model.name@;
                assert(hb.offers@.take(i + 1).map_values(|o: ModelOffer| o.model.name@) =~= names.push(nm));
                names.lemma_push_to_set_commute(nm);
                assert(self.index_map() =~~= with_peer_listed(idx0, names.to_set().insert(nm), hb.peer_id@));
            }
            i = i + 1;
        }
        assert(hb.offers@.take(hb.offers@.len() as int) =~= hb.offers@);
        let peer = hb.peer_id.clone();
        provider_insert(&mut self.providers, peer, Provider { hb, last_seen: now });
    }

    /// Remove jobs older than `max_age_ms` at time `now`. Returns how many
    /// were swept.
    pub fn sweep_jobs_at(&mut self, max_age_ms: u64, now: u64) -> (r: usize)
        ensures
            old(self).swept(*final(self), r, max_age_ms, now),
    {
        let entries = job_entries(&self.jobs);
        let ghost jobs0 = self.job_map();
        let ghost pred = |k: Seq<char>| job_expired(jobs0[k], max_age_ms, now);
        let ghost mut gset: Set<Seq<char>> = Set::empty();
        let mut expired: Vec<String> = Vec::new();
        let mut i: usize = 0;
        while i < entries.len()
            invariant
                i <= entries@.len(),
                is_snapshot(entries@, jobs0),
                pred == (|k: Seq<char>| job_expired(jobs0[k], max_age_ms, now)),
                gset == expired@.map_values(|s: String| s@).to_set(),
                expired@.map_values(|s: String| s@).no_duplicates(),
                forall|k: Seq<char>| #[trigger] gset.contains(k) ==> jobs0.dom().contains(k) && pred(k),
                forall|k: Seq<char>| #[trigger] gset.contains(k) ==> exists|e: int| 0 <= e < i && (#[trigger] entries@[e].0)@ == k,
                forall|e: int| 0 <= e < i && pred((#[trigger] entries@[e].0)@) ==> gset.contains(entries@[e].0@),
            decreases entries@.len() - i,
        {
            let created = entries[i].1.created;
            if now.saturating_sub(created) > max_age_ms {
                let ghost key = entries@[i as int].0@;
                proof {
                    assert(jobs0[key] == entries@[i as int].1);
                    assert(!gset.contains(key)) by {
                        if gset.contains(key) {
                            let e = choose|e: int| 0 <= e < i && (#[trigger] entries@[e].0)@ == key;
                            assert(entries@[e].0@ != entries@[i as int].0@);
                        }
                    }
                }
                let ghost before = expired@;
                expired.push(entries[i].0.clone());
                proof {
                    assert(expired@.map_values(|s: String| s@) =~= before.map_values(|s: String| s@).push(key));
                    before.map_values(|s: String| s@).lemma_push_to_set_commute(key);
                    gset = gset.insert(key);
                }
            }
            i = i + 1;
        }
        let ghost eset = jobs0.dom().filter(pred);
        proof {
            assert forall|k: Seq<char>| eset.contains(k) implies gset.contains(k) by {
                let e = choose|e: int| 0 <= e < entries@.len() && (#[trigger] entries@[e].0)@ == k;
            }
            assert(gset =~= eset);
            expired@.map_values(|s: String| s@).unique_seq_to_set();
        }
        let n = expired.len();
        proof {
            assert(jobs0.remove_keys(expired@.take(0).map_values(|s: String| s@).to_set()) =~= jobs0);
        }
        let mut j: usize = 0;
        while j < expired.len()
            invariant
                j <= expired@.len(),
                self.job_map() == jobs0.remove_keys(expired@.take(j as int).map_values(|s: String| s@).to_set()),
                self.provider_map() == old(self).provider_map(),
                self.ledger_map() == old(self).ledger_map(),
                self.index_map() == old(self).index_map(),
                self.counter() == old(self).counter(),
            decreases expired@.len() - j,
        {
            let ghost prefix = expired@.take(j as int).map_values(|s: String| s@);
            let _ = job_remove(&mut self.jobs, expired[j].as_str());
            proof {
                assert(expired@.take(j + 1).map_values(|s: String| s@) =~= prefix.push(expired@[j as int]@));
                prefix.lemma_push_to_set_commute(expired@[j as int]@);
                assert(self.job_map() =~= jobs0.remove_keys(prefix.to_set().insert(expired@[j as int]@)));
            }
            j = j + 1;
        }
        proof {
            assert(expired@.take(expired@.len() as int) =~= expired@);
            assert(self.job_map() =~= jobs0.restrict(jobs0.dom().filter(|k: Seq<char>| !job_expired(jobs0[k], max_age_ms, now))));
        }
        n
    }
}


impl State {
    /// `post.ledger` is `self.ledger` with a fresh row for `peer` if it had none.
    pub open spec fn ledger_touched(self, post: State, peer: Seq<char>, now: u64) -> bool {
        &&& post.ledger_map() == (if self.ledger_map().dom().contains(peer) {
            self.ledger_map()
        } else {
            self.ledger_map().insert(peer, post.ledger_map()[peer])
        })
        &&& !self.ledger_map().dom().contains(peer) ==> is_fresh_entry(
            post.ledger_map()[peer],
            peer,
            now,
        )
    }

    pub open spec fn touched(self, post: State, peer: Seq<char>, now: u64) -> bool {
        &&& self.ledger_touched(post, peer, now)
        &&& post.provider_map() == self.provider_map()
        &&& post.job_map() == self.job_map()
    }

    /// `post` is `self` after registering heartbeat `hb` at time `now`.
    pub open spec fn registered(self, post: State, hb: Heartbeat, now: u64) -> bool {
        &&& self.ledger_touched(post, hb.peer_id@, now)
        &&& post.index_map() == with_peer_listed(
            self.index_map(),
            offered_names(hb.offers@),
            hb.peer_id@,
        )
        &&& post.provider_map() == self.provider_map().insert(
            hb.peer_id@,
            Provider { hb, last_seen: now },
        )
        &&& post.job_map() == self.job_map()
        &&& post.counter() == self.counter()
    }

    /// `post` and the count `r` are what sweeping jobs older than
    /// `max_age_ms` at time `now` yields.
    pub open spec fn swept(self, post: State, r: usize, max_age_ms: u64, now: u64) -> bool {
        &&& post.job_map() == self.job_map().restrict(
            self.job_map().dom().filter(
                |k: Seq<char>| !job_expired(self.job_map()[k], max_age_ms, now),
            ),
        )
        &&& r == self.job_map().dom().filter(
            |k: Seq<char>| job_expired(self.job_map()[k], max_age_ms, now),
        ).len()
        &&& post.provider_map() == self.provider_map()
        &&& post.ledger_map() == self.ledger_map()
        &&& post.index_map() == self.index_map()
        &&& post.counter() == self.counter()
    }

    /// `post` and `r` are what a single match at time `now` yields: sampling
    /// over some order of the index, then the audit slot or the weighted draw.
    pub open spec fn selected(
        self,
        post: State,
        r: Option<(String, Vec<String>, bool, ModelId)>,
        req: ModelId,
        consumer: Seq<char>,
        require: ModelCaps,
        now: u64,
    ) -> bool {
        exists|cands: Seq<Candidate>|
            {
                &&& #[trigger] self.sample_result(post, cands, req, consumer, require, now)
                &&& cands.len() == 0 ==> r is None && post.counter() == self.counter()
                &&& cands.len() > 0 ==> {
                    let c = self.counter().wrapping_add(1);
                    let pick = self.spec_pick(cands, c);
                    &&& post.counter() == c
                    &&& 0 <= pick.0 < cands.len()
                    &&& r == Some(as_pick(cands[pick.0], pick.1))
                }
            }
    }

    /// `post` and `r` are what a fan-out match for `k` providers at time
    /// `now` yields.
    pub open spec fn selected_many(
        self,
        post: State,
        r: Seq<(String, Vec<String>, bool, ModelId)>,
        req: ModelId,
        consumer: Seq<char>,
        k: int,
        require: ModelCaps,
        now: u64,
    ) -> bool {
        &&& exists|cands: Seq<Candidate>|
            {
                &&& #[trigger] self.sample_result(post, cands, req, consumer, require, now)
                &&& r == self.best_k(cands, k)
            }
        &&& post.counter() == self.counter()
    }

    /// Ensure a ledger row exists for a peer (cheap no-op if already present).
    pub fn touch_ledger(&mut self, peer: &str)
        ensures
            exists|now: u64| #[trigger] old(self).touched(*final(self), peer@, now),
            final(self).index_map() == old(self).index_map(),
            final(self).counter() == old(self).counter(),
    {
        let now = now_ms();
        self.touch_ledger_at(peer, now);
    }

    /// Register (or refresh) a provider: update the live directory and the
    /// per-model index used for matchmaking.
    pub fn register(&mut self, hb: Heartbeat)
        ensures
            exists|now: u64| #[trigger] old(self).registered(*final(self), hb, now),
    {
        let now = now_ms();
        self.register_at(hb, now);
    }

    /// Choose a provider for a model (no capability requirement).
    pub fn select_provider(&mut self, req: &ModelId, consumer: &str) -> (r: Option<(String, Vec<String>, bool, ModelId)>)
        ensures
            exists|now: u64|
                #[trigger] old(self).selected(*final(self), r, *req, consumer@, ModelCaps::default_spec(), now),
    {
        self.select_provider_req(req, consumer, &ModelCaps::none())
    }

    /// Choose a provider satisfying `require` (see `select_provider_req_at`).
    pub fn select_provider_req(&mut self, req: &ModelId, consumer: &str, require: &ModelCaps) -> (r: Option<(String, Vec<String>, bool, ModelId)>)
        ensures
            exists|now: u64|
                #[trigger] old(self).selected(*final(self), r, *req, consumer@, *require, now),
    {
        let now = now_ms();
        self.select_provider_req_at(req, consumer, require, now)
    }

    /// Fan-out: up to `k` distinct providers (no capability requirement).
    pub fn select_providers(&mut self, req: &ModelId, consumer: &str, k: usize) -> (r: Vec<(String, Vec<String>, bool, ModelId)>)
        ensures
            exists|now: u64|
                #[trigger] old(self).selected_many(*final(self), r@, *req, consumer@, k as int, ModelCaps::default_spec(), now),
    {
        self.select_providers_req(req, consumer, k, &ModelCaps::none())
    }

    /// Fan-out: up to `k` distinct providers satisfying `require`, best-first.
    pub fn select_providers_req(&mut self, req: &ModelId, consumer: &str, k: usize, require: &ModelCaps) -> (r: Vec<(String, Vec<String>, bool, ModelId)>)
        ensures
            exists|now: u64|
                #[trigger] old(self).selected_many(*final(self), r@, *req, consumer@, k as int, *require, now),
    {
        let now = now_ms();
        self.select_providers_req_at(req, consumer, k, require, now)
    }

    /// Remove jobs older than `max_age_ms` (abandoned jobs). Returns how many
    /// were swept.
    pub fn sweep_jobs(&mut self, max_age_ms: u64) -> (r: usize)
        ensures
            exists|now: u64| #[trigger] old(self).swept(*final(self), r, max_age_ms, now),
    {
        let now = now_ms();
        self.sweep_jobs_at(max_age_ms, now)
    }
}


/// `Uuid::new_v4` rendered as text: a fresh random job id in the
/// hyphenated form of 36 characters. Which id comes out is left to chance,
/// so nothing says it differs from ids already in use.
#[verifier::external_body]
fn new_job_id() -> (r: String)
    ensures
        r@.len() == 36,
{
    Uuid::new_v4().to_string()
}

/// How the coordinator answers a heartbeat.
#[derive(Debug, Clone, Copy, PartialEq, Eq, Structural)]
pub enum HeartbeatStatus {
    /// registered
    Accepted,
    /// a field exceeds its bounds (HTTP 400)
    BadRequest,
    /// the signature does not verify (HTTP 401)
    Unauthorized,
}

/// Why a settlement was refused.
#[derive(Debug, Clone, Copy, PartialEq, Eq, Structural)]
pub enum SettleError {
    /// the consumer public key does not decode (HTTP 400)
    BadConsumerPubkey,
    /// no open job with that id (HTTP 404)
    UnknownJob,
    /// the receipt failed verification (HTTP 400)
    ReceiptRejected,
}

impl SettleError {
    /// The HTTP status code the coordinator answers with.
    pub fn status(&self) -> (r: u16)
        ensures
            r == match *self {
                SettleError::UnknownJob => 404u16,
                _ => 400u16,
            },
    {
        match self {
            SettleError::UnknownJob => 404,
            _ => 400,
        }
    }

    /// The error text the coordinator answers with.
    pub fn message(&self) -> (r: String)
        ensures
            r@ == match *self {
                SettleError::BadConsumerPubkey => "bad consumer_pubkey"@,
                SettleError::UnknownJob => "unknown or already-settled job"@,
                SettleError::ReceiptRejected => "receipt failed verification"@,
            },
    {
        match self {
            SettleError::BadConsumerPubkey => String::from_str("bad consumer_pubkey"),
            SettleError::UnknownJob => String::from_str("unknown or already-settled job"),
            SettleError::ReceiptRejected => String::from_str("receipt failed verification"),
        }
    }
}

/// The ledger row for `peer`, or a fresh one created at `now`.
pub open spec fn entry_or_new(l: Map<Seq<char>, LedgerEntry>, peer: String, now: u64) -> LedgerEntry {
    if l.dom().contains(peer@) {
        l[peer@]
    } else {
        LedgerEntry {
            peer_id: peer,
            served: 0,
            consumed: 0,
            reputation_ppm: REPUTATION_ONE,
            audits_passed: 0,
            audits_total: 0,
            first_seen: now,
        }
    }
}

/// Audit pass rate in parts per million (1.0 before any audit).
pub open spec fn pass_rate_ppm(passed: u32, total: u32) -> u32 {
    if total == 0 {
        REPUTATION_ONE
    } else {
        ((passed as nat * REPUTATION_ONE as nat) / total as nat) as u32
    }
}

/// The provider's row after serving `tokens` on a job (audited or not).
pub open spec fn credited(e: LedgerEntry, tokens: u64, audit: bool, completed: bool) -> LedgerEntry {
    let served = e.served.wrapping_add(tokens);
    if audit {
        let total = e.audits_total.wrapping_add(1);
        let passed = if completed {
            e.audits_passed.wrapping_add(1)
        } else {
            e.audits_passed
        };
        LedgerEntry {
            served,
            audits_total: total,
            audits_passed: passed,
            reputation_ppm: pass_rate_ppm(passed, total),
            ..e
        }
    } else {
        LedgerEntry { served, ..e }
    }
}

/// Settling an audit job counts one more audit for the provider and one
/// more pass exactly when the job was completed; the reputation is then the
/// pass rate (passes per million audits). A failed audit never counts as a
/// pass, so it lowers the rate.
pub proof fn lemma_audit_outcome(s: State, j: Job, tokens: u64, completed: bool, now: u64)
    requires
        j.audit,
        entry_or_new(s.ledger_map(), j.provider, now).audits_passed <= entry_or_new(
            s.ledger_map(),
            j.provider,
            now,
        ).audits_total,
        entry_or_new(s.ledger_map(), j.provider, now).audits_total < u32::MAX,
    ensures
        ({
            let e = entry_or_new(s.ledger_map(), j.provider, now);
            let p = s.settled_ledger(j, tokens, completed, now)[j.provider@];
            &&& p.audits_total == e.audits_total + 1
            &&& completed ==> p.audits_passed == e.audits_passed + 1
            &&& !completed ==> p.audits_passed == e.audits_passed
            &&& p.reputation_ppm as int == p.audits_passed as int * 1_000_000 / p.audits_total as int
            &&& p.served == e.served.wrapping_add(tokens)
        }),
{
    let e = entry_or_new(s.ledger_map(), j.provider, now);
    let c = credited(e, tokens, true, completed);
    let l1 = s.ledger_map().insert(j.provider@, c);
    let l = s.settled_ledger(j, tokens, completed, now);
    assert(l1[j.provider@] == c);
    if j.consumer@ == j.provider@ {
        assert(entry_or_new(l1, j.consumer, now) == c);
        assert(l[j.provider@] == debited(c, tokens));
    } else {
        assert(l[j.provider@] == c);
    }
    assert(c.audits_passed <= c.audits_total);
    assert(c.audits_passed as nat * 1_000_000 / c.audits_total as nat <= 1_000_000) by (nonlinear_arith)
        requires
            c.audits_passed <= c.audits_total,
            c.audits_total > 0,
    ;
}

/// The consumer's row after consuming `tokens`.
pub open spec fn debited(e: LedgerEntry, tokens: u64) -> LedgerEntry {
    LedgerEntry { consumed: e.consumed.wrapping_add(tokens), ..e }
}

fn fresh_or_existing(ledger: &DashMap<String, LedgerEntry>, peer: &String, now: u64) -> (r: LedgerEntry)
    ensures
        r == entry_or_new(ledger_table(*ledger), *peer, now),
{
    match ledger_get(ledger, peer.as_str()) {
        Some(e) => e,
        None => LedgerEntry::new(peer.clone(), now),
    }
}

impl State {
    /// A settlement the coordinator honours: the consumer key decodes, the
    /// job is open, the receipt names the job's consumer and provider, and it
    /// is signed by that consumer's key.
    pub open spec fn settlement_valid(self, req: SettleRequest) -> bool {
        let id = req.receipt.body.job_id@;
        let j = self.job_map()[id];
        &&& base64_decoding(trim(req.consumer_pubkey@)) matches Some(b) && pubkey_bytes_valid(b)
            && receipt_authentic(req.receipt.body, req.receipt.consumer_sig@, b)
        &&& self.job_map().dom().contains(id)
        &&& req.receipt.body.consumer@ == j.consumer@
        &&& req.receipt.body.provider@ == j.provider@
    }

    /// The ledger after settling `tokens` for job `j` at time `now`.
    pub open spec fn settled_ledger(self, j: Job, tokens: u64, completed: bool, now: u64) -> Map<Seq<char>, LedgerEntry> {
        let l1 = self.ledger_map().insert(
            j.provider@,
            credited(entry_or_new(self.ledger_map(), j.provider, now), tokens, j.audit, completed),
        );
        l1.insert(j.consumer@, debited(entry_or_new(l1, j.consumer, now), tokens))
    }

    /// The reply to a settlement made at time `now`: the provider's served
    /// total and the consumer's consumed total after it.
    pub open spec fn settle_reply(self, req: SettleRequest, now: u64) -> SettleResponse {
        let j = self.job_map()[req.receipt.body.job_id@];
        let tokens = req.receipt.body.cumulative_tokens;
        SettleResponse {
            accepted: true,
            provider_served_total: credited(
                entry_or_new(self.ledger_map(), j.provider, now),
                tokens,
                j.audit,
                req.completed,
            ).served,
            consumer_consumed_total: self.settled_ledger(j, tokens, req.completed, now)[j.consumer@].consumed,
        }
    }

    /// Settle a job from its final consumer-signed receipt at time `now`:
    /// verify the receipt against the job's participants, then credit the
    /// provider (and its audit record, for audit jobs) and debit the consumer.
    pub fn settle_at(&mut self, req: &SettleRequest, now: u64) -> (r: Result<SettleResponse, SettleError>)
        ensures
            final(self).provider_map() == old(self).provider_map(),
            final(self).index_map() == old(self).index_map(),
            final(self).counter() == old(self).counter(),
            !(base64_decoding(trim(req.consumer_pubkey@)) matches Some(b) && pubkey_bytes_valid(b))
                ==> r == Err::<SettleResponse, SettleError>(SettleError::BadConsumerPubkey),
            (base64_decoding(trim(req.consumer_pubkey@)) matches Some(b) && pubkey_bytes_valid(b))
                && !old(self).job_map().dom().contains(req.receipt.body.job_id@) ==> r == Err::<
                SettleResponse,
                SettleError,
            >(SettleError::UnknownJob),
            (base64_decoding(trim(req.consumer_pubkey@)) matches Some(b) && pubkey_bytes_valid(b))
                && old(self).job_map().dom().contains(req.receipt.body.job_id@)
                && !old(self).settlement_valid(*req) ==> r == Err::<SettleResponse, SettleError>(
                SettleError::ReceiptRejected,
            ),
            r is Ok <==> old(self).settlement_valid(*req),
            r is Err ==> final(self).job_map() == old(self).job_map() && final(self).ledger_map()
                == old(self).ledger_map(),
            r is Ok ==> {
                let j = old(self).job_map()[req.receipt.body.job_id@];
                let tokens = req.receipt.body.cumulative_tokens;
                let l = old(self).settled_ledger(j, tokens, req.completed, now);
                &&& old(self).job_map().dom().contains(req.receipt.body.job_id@)
                &&& req.receipt.body.consumer@ == j.consumer@
                &&& req.receipt.body.provider@ == j.provider@
                &&& final(self).job_map() == old(self).job_map().remove(req.receipt.body.job_id@)
                &&& final(self).ledger_map() == l
                &&& r == Ok::<SettleResponse, SettleError>(
                    SettleResponse {
                        accepted: true,
                        provider_served_total: credited(
                            entry_or_new(old(self).ledger_map(), j.provider, now),
                            tokens,
                            j.audit,
                            req.completed,
                        ).served,
                        consumer_consumed_total: l[j.consumer@].consumed,
                    },
                )
            },
    {
        let consumer_pk = match import_pubkey(req.consumer_pubkey.as_str()) {
            Ok(pk) => pk,
            Err(_) => return Err(SettleError::BadConsumerPubkey),
        };
        let job_id = req.receipt.body.job_id.as_str();
        let ghost jobs0 = self.job_map();
        let job = match job_remove(&mut self.jobs, job_id) {
            Some(j) => j,
            None => {
                assert(self.job_map() =~= jobs0);
                return Err(SettleError::UnknownJob);
            },
        };
        if !verify_settlement(
            &req.receipt,
            &consumer_pk,
            job_id,
            job.consumer.as_str(),
            job.provider.as_str(),
        ) {
            let ghost j0 = job;
            job_insert(&mut self.jobs, req.receipt.body.job_id.clone(), job);
            assert(self.job_map() =~= jobs0);
            return Err(SettleError::ReceiptRejected);
        }
        let tokens = req.receipt.body.cumulative_tokens;
        let mut p = fresh_or_existing(&self.ledger, &job.provider, now);
        p.served = p.served.wrapping_add(tokens);
        if job.audit {
            p.audits_total = p.audits_total.wrapping_add(1);
            if req.completed {
                p.audits_passed = p.audits_passed.wrapping_add(1);
            }
            p.reputation_ppm = if p.audits_total == 0 {
                REPUTATION_ONE
            } else {
                let passed = p.audits_passed as u64;
                let total = p.audits_total as u64;
                assert(passed * 1_000_000 <= u32::MAX * 1_000_000) by (nonlinear_arith)
                    requires
                        passed <= u32::MAX,
                ;
                let num: u64 = passed * 1_000_000;
                let q = num / total;
                assert(q as nat == (passed as nat * REPUTATION_ONE as nat) / total as nat);
                #[verifier::truncate]
                (q as u32)
            };
        }
        let provider_total = p.served;
        ledger_insert(&mut self.ledger, job.provider.clone(), p);
        let mut c = fresh_or_existing(&self.ledger, &job.consumer, now);
        c.consumed = c.consumed.wrapping_add(tokens);
        let consumer_total = c.consumed;
        ledger_insert(&mut self.ledger, job.consumer.clone(), c);
        Ok(SettleResponse {
            accepted: true,
            provider_served_total: provider_total,
            consumer_consumed_total: consumer_total,
        })
    }

    /// Settle a job (see `settle_at`), timestamping any new ledger row now.
    pub fn settle(&mut self, req: &SettleRequest) -> (r: Result<SettleResponse, SettleError>)
        ensures
            final(self).provider_map() == old(self).provider_map(),
            final(self).index_map() == old(self).index_map(),
            r is Err ==> final(self).job_map() == old(self).job_map() && final(self).ledger_map()
                == old(self).ledger_map(),
            !(base64_decoding(trim(req.consumer_pubkey@)) matches Some(b) && pubkey_bytes_valid(b))
                ==> r == Err::<SettleResponse, SettleError>(SettleError::BadConsumerPubkey),
            (base64_decoding(trim(req.consumer_pubkey@)) matches Some(b) && pubkey_bytes_valid(b))
                && !old(self).job_map().dom().contains(req.receipt.body.job_id@) ==> r == Err::<
                SettleResponse,
                SettleError,
            >(SettleError::UnknownJob),
            (base64_decoding(trim(req.consumer_pubkey@)) matches Some(b) && pubkey_bytes_valid(b))
                && old(self).job_map().dom().contains(req.receipt.body.job_id@)
                && !old(self).settlement_valid(*req) ==> r == Err::<SettleResponse, SettleError>(
                SettleError::ReceiptRejected,
            ),
            r is Ok <==> old(self).settlement_valid(*req),
            r is Ok ==> exists|now: u64|
                #[trigger] old(self).settled_ledger(
                    old(self).job_map()[req.receipt.body.job_id@],
                    req.receipt.body.cumulative_tokens,
                    req.completed,
                    now,
                ) == final(self).ledger_map() && r == Ok::<SettleResponse, SettleError>(
                    old(self).settle_reply(*req, now),
                ),
            r is Ok ==> final(self).job_map() == old(self).job_map().remove(req.receipt.body.job_id@),
    {
        let now = now_ms();
        self.settle_at(req, now)
    }
}


/// The fan-out width actually used: at least 1, at most `MAX_FANOUT`.
pub open spec fn fanout_width(count: u32) -> int {
    let c = if count < 1 {
        1
    } else {
        count as int
    };
    if c < MAX_FANOUT {
        c
    } else {
        MAX_FANOUT as int
    }
}

/// The job table after opening one job per match, in order: the match at
/// position `i` opens `job_for(consumer, picks[i], now)` under its job id.
pub open spec fn jobs_opened(
    base: Map<Seq<char>, Job>,
    ms: Seq<Match>,
    consumer: String,
    picks: Seq<(String, Vec<String>, bool, ModelId)>,
    now: u64,
) -> Map<Seq<char>, Job>
    decreases ms.len(),
{
    if ms.len() == 0 {
        base
    } else {
        jobs_opened(base, ms.drop_last(), consumer, picks, now).insert(
            ms.last().job_id@,
            job_for(consumer, picks[ms.len() - 1], now),
        )
    }
}

/// What a fan-out does to the job table: every match's job is open, the
/// match opened it for the consumer and the picked provider (unless a later
/// match reused its id), and every other entry stays as it was.
#[verifier::spinoff_prover]
#[verifier::rlimit(40)]
pub proof fn lemma_jobs_opened(
    base: Map<Seq<char>, Job>,
    ms: Seq<Match>,
    consumer: String,
    picks: Seq<(String, Vec<String>, bool, ModelId)>,
    now: u64,
)
    ensures
        forall|i: int|
            0 <= i < ms.len() ==> jobs_opened(base, ms, consumer, picks, now).dom().contains(
                (#[trigger] ms[i]).job_id@,
            ),
        forall|i: int|
            0 <= i < ms.len() && (forall|j: int| i < j < ms.len() ==> ms[j].job_id@ != ms[i].job_id@)
                ==> jobs_opened(base, ms, consumer, picks, now)[(#[trigger] ms[i]).job_id@]
                == job_for(consumer, picks[i], now),
        forall|id: Seq<char>|
            (forall|i: int| 0 <= i < ms.len() ==> (#[trigger] ms[i]).job_id@ != id) ==> (
            #[trigger] jobs_opened(base, ms, consumer, picks, now).dom().contains(id)
                == base.dom().contains(id) && (base.dom().contains(id) ==> jobs_opened(
                base,
                ms,
                consumer,
                picks,
                now,
            )[id] == base[id])),
    decreases ms.len(),
{
    if ms.len() > 0 {
        let rest = ms.drop_last();
        lemma_jobs_opened(base, rest, consumer, picks, now);
        let m = jobs_opened(base, ms, consumer, picks, now);
        assert forall|i: int| 0 <= i < ms.len() implies m.dom().contains((#[trigger] ms[i]).job_id@) by {
            if i < ms.len() - 1 {
                assert(rest[i] == ms[i]);
            }
        }
        assert forall|i: int|
            0 <= i < ms.len() && (forall|j: int| i < j < ms.len() ==> ms[j].job_id@ != ms[i].job_id@)
                implies m[(#[trigger] ms[i]).job_id@] == job_for(consumer, picks[i], now) by {
            if i < ms.len() - 1 {
                assert(rest[i] == ms[i]);
                assert(ms[ms.len() - 1].job_id@ != ms[i].job_id@);
                assert forall|j: int| i < j < rest.len() implies rest[j].job_id@ != rest[i].job_id@ by {
                    assert(rest[j] == ms[j]);
                }
            }
        }
        assert forall|id: Seq<char>|
            (forall|i: int| 0 <= i < ms.len() ==> (#[trigger] ms[i]).job_id@ != id) implies (
            #[trigger] m.dom().contains(id) == base.dom().contains(id) && (base.dom().contains(id)
                ==> m[id] == base[id])) by {
            assert(ms[ms.len() - 1].job_id@ != id);
            assert forall|i: int| 0 <= i < rest.len() implies (#[trigger] rest[i]).job_id@ != id by {
                assert(rest[i] == ms[i]);
            }
        }
    }
}

/// The job a match opens./// The job a match opens.
pub open spec fn job_for(consumer: String, pick: (String, Vec<String>, bool, ModelId), now: u64) -> Job {
    Job { consumer, provider: pick.0, model: pick.3, audit: pick.2, created: now }
}

impl State {
    /// Answer a heartbeat: reject it if a field is out of bounds, or (unless
    /// unsigned heartbeats are allowed) if its signature over `body` does not
    /// verify; otherwise register it.
    pub fn accept_heartbeat_at(&mut self, hb: Heartbeat, body: &[u8], now: u64) -> (r: HeartbeatStatus)
        ensures
            heartbeat_rejection(hb, peer_id_text_valid(hb.peer_id@)) is Some ==> r
                == HeartbeatStatus::BadRequest,
            r == HeartbeatStatus::Unauthorized ==> !old(self).unsigned_allowed(),
            r == HeartbeatStatus::Accepted ==> old(self).registered(*final(self), hb, now)
                && heartbeat_rejection(hb, peer_id_text_valid(hb.peer_id@)) is None && (
                old(self).unsigned_allowed() || (credentials_well_formed(hb) && heartbeat_authentic(
                    hb,
                    body@,
                ))),
            heartbeat_rejection(hb, peer_id_text_valid(hb.peer_id@)) is None && (
            old(self).unsigned_allowed() || heartbeat_authentic(hb, body@)) ==> r
                == HeartbeatStatus::Accepted,
            heartbeat_rejection(hb, peer_id_text_valid(hb.peer_id@)) is None
                && !old(self).unsigned_allowed() && !heartbeat_authentic(hb, body@) ==> r
                == HeartbeatStatus::Unauthorized,
            r != HeartbeatStatus::Accepted ==> *final(self) == *old(self),
    {
        if validate_heartbeat(&hb).is_err() {
            return HeartbeatStatus::BadRequest;
        }
        if !self.allow_unsigned && !verify_heartbeat(&hb, body) {
            return HeartbeatStatus::Unauthorized;
        }
        self.register_at(hb, now);
        HeartbeatStatus::Accepted
    }

    /// Answer a heartbeat (see `accept_heartbeat_at`), stamping it now.
    pub fn accept_heartbeat(&mut self, hb: Heartbeat, body: &[u8]) -> (r: HeartbeatStatus)
        ensures
            heartbeat_rejection(hb, peer_id_text_valid(hb.peer_id@)) is Some ==> r
                == HeartbeatStatus::BadRequest,
            r == HeartbeatStatus::Unauthorized ==> !old(self).unsigned_allowed(),
            r == HeartbeatStatus::Accepted ==> exists|now: u64|
                #[trigger] old(self).registered(*final(self), hb, now),
            r == HeartbeatStatus::Accepted ==> old(self).unsigned_allowed() || heartbeat_authentic(
                hb,
                body@,
            ),
            heartbeat_rejection(hb, peer_id_text_valid(hb.peer_id@)) is None && (
            old(self).unsigned_allowed() || heartbeat_authentic(hb, body@)) ==> r
                == HeartbeatStatus::Accepted,
            heartbeat_rejection(hb, peer_id_text_valid(hb.peer_id@)) is None
                && !old(self).unsigned_allowed() && !heartbeat_authentic(hb, body@) ==> r
                == HeartbeatStatus::Unauthorized,
            r != HeartbeatStatus::Accepted ==> *final(self) == *old(self),
    {
        let now = now_ms();
        self.accept_heartbeat_at(hb, body, now)
    }

    /// `after` and `r` are what answering the match request `req` at time
    /// `now` yields: the consumer's ledger row is touched; a consumer below the
    /// ratio is refused; otherwise a provider is selected, among those meeting
    /// `req.require` when any does, and a job opened.
    pub open spec fn answered_match(self, after: State, r: MatchResponse, req: MatchRequest, now: u64) -> bool {
            exists|mid: State|
                {
                    &&& #[trigger] self.touched(mid, req.consumer@, now)
                    &&& mid.index_map() == self.index_map()
                    &&& mid.counter() == self.counter()
                    &&& if !mid.spec_consumer_allowed(req.consumer@) {
                        &&& r is RatioExceeded
                        &&& after.provider_map() == mid.provider_map()
                        &&& after.ledger_map() == mid.ledger_map()
                        &&& after.job_map() == mid.job_map()
                        &&& after.index_map() == mid.index_map()
                        &&& after.counter() == mid.counter()
                    } else {
                        exists|post: State, pick: Option<(String, Vec<String>, bool, ModelId)>|
                            {
                                &&& #[trigger] mid.selected(post, pick, req.model, req.consumer@, req.require, now)
                                &&& after.provider_map() == post.provider_map()
                                &&& after.ledger_map() == post.ledger_map()
                                &&& after.index_map() == post.index_map()
                                &&& after.counter() == post.counter()
                                &&& match pick {
                                    None => r is NoProvider && after.job_map() == post.job_map(),
                                    Some(p) => r matches MatchResponse::Matched(m) && m.provider == p.0
                                        && m.multiaddrs == p.1 && m.audit == p.2 && m.model == p.3
                                        && after.job_map() == post.job_map().insert(
                                        m.job_id@,
                                        job_for(req.consumer, p, now),
                                    ),
                                }
                            }
                    }
                }
    }

    /// Match a consumer with one provider at time `now`: refuse if its ratio
    /// is exhausted, else pick a provider (a capable one when any is) and
    /// open a job for it. The coordinator does not consult `req.exclude`.
    pub fn match_one_at(&mut self, req: &MatchRequest, now: u64) -> (r: MatchResponse)
        ensures
            old(self).answered_match(*final(self), r, *req, now),
    {
        self.touch_ledger_at(req.consumer.as_str(), now);
        let ghost mid = *self;
        if !self.consumer_allowed(req.consumer.as_str()) {
            return MatchResponse::RatioExceeded;
        }
        let pick = self.select_provider_req_at(&req.model, req.consumer.as_str(), &req.require, now);
        let ghost post = *self;
        let ghost gpick = pick;
        match pick {
            None => MatchResponse::NoProvider,
            Some((provider, multiaddrs, audit, concrete)) => {
                let job_id = new_job_id();
                let job = Job {
                    consumer: req.consumer.clone(),
                    provider: provider.clone(),
                    model: clone_model(&concrete),
                    audit,
                    created: now,
                };
                job_insert(&mut self.jobs, job_id.clone(), job);
                let m = Match { job_id, provider, multiaddrs, model: concrete, audit };
                assert(mid.selected(post, gpick, req.model, req.consumer@, req.require, now));
                MatchResponse::Matched(m)
            },
        }
    }

    /// Match a consumer with one provider (see `match_one_at`), now.
    pub fn match_one(&mut self, req: &MatchRequest) -> (r: MatchResponse)
        ensures
            exists|now: u64| #[trigger] old(self).answered_match(*final(self), r, *req, now),
    {
        let now = now_ms();
        self.match_one_at(req, now)
    }

    /// Fan-out matchmaking at time `now`: up to `count` (clamped to
    /// 1..=`MAX_FANOUT`) distinct providers, each with its own job.
    /// `after` and `r` are what answering the fan-out request `req` at time
    /// `now` yields.
    pub open spec fn answered_many(self, after: State, r: MatchManyResponse, req: MatchManyRequest, now: u64) -> bool {
            exists|mid: State|
                {
                    &&& #[trigger] self.touched(mid, req.consumer@, now)
                    &&& mid.index_map() == self.index_map()
                    &&& mid.counter() == self.counter()
                    &&& if !mid.spec_consumer_allowed(req.consumer@) {
                        &&& r is RatioExceeded
                        &&& after.job_map() == mid.job_map()
                        &&& after.provider_map() == mid.provider_map()
                        &&& after.ledger_map() == mid.ledger_map()
                        &&& after.index_map() == mid.index_map()
                        &&& after.counter() == mid.counter()
                    } else {
                        exists|post: State, picks: Seq<(String, Vec<String>, bool, ModelId)>|
                            {
                                &&& #[trigger] mid.selected_many(post, picks, req.model, req.consumer@, fanout_width(req.count), ModelCaps::default_spec(), now)
                                &&& after.provider_map() == post.provider_map()
                                &&& after.ledger_map() == post.ledger_map()
                                &&& after.index_map() == post.index_map()
                                &&& after.counter() == post.counter()
                                &&& r matches MatchManyResponse::Matched { matches } && matches@.len()
                                    == picks.len() && after.job_map() == jobs_opened(
                                    post.job_map(),
                                    matches@,
                                    req.consumer,
                                    picks,
                                    now,
                                ) && forall|i: int|
                                    0 <= i < picks.len() ==> {
                                        &&& (#[trigger] matches@[i]).provider == picks[i].0
                                        &&& matches@[i].multiaddrs == picks[i].1
                                        &&& matches@[i].audit == picks[i].2
                                        &&& matches@[i].model == picks[i].3
                                        &&& after.job_map().dom().contains(matches@[i].job_id@)
                                    }
                            }
                    }
                }
    }

    pub fn match_many_at(&mut self, req: &MatchManyRequest, now: u64) -> (r: MatchManyResponse)
        ensures
            old(self).answered_many(*final(self), r, *req, now),
    {
        self.touch_ledger_at(req.consumer.as_str(), now);
        let ghost mid = *self;
        if !self.consumer_allowed(req.consumer.as_str()) {
            return MatchManyResponse::RatioExceeded;
        }
        let c: usize = if req.count < 1 {
            1
        } else {
            req.count as usize
        };
        let k: usize = if c < MAX_FANOUT {
            c
        } else {
            MAX_FANOUT
        };
        let picked = self.select_providers_req_at(&req.model, req.consumer.as_str(), k, &ModelCaps::none(), now);
        let ghost post = *self;
        let ghost picks = picked@;
        let mut rest = into_reversed(picked);
        let mut matches: Vec<Match> = Vec::new();
        while rest.len() > 0
            invariant
                rest@.len() <= picks.len(),
                rest@.reverse() == picks.skip(picks.len() - rest@.len()),
                matches@.len() == picks.len() - rest@.len(),
                self.provider_map() == post.provider_map(),
                self.ledger_map() == post.ledger_map(),
                self.index_map() == post.index_map(),
                self.counter() == post.counter(),
                self.job_map() == jobs_opened(post.job_map(), matches@, req.consumer, picks, now),
                forall|i: int|
                    0 <= i < matches@.len() ==> {
                        &&& (#[trigger] matches@[i]).provider == picks[i].0
                        &&& matches@[i].multiaddrs == picks[i].1
                        &&& matches@[i].audit == picks[i].2
                        &&& matches@[i].model == picks[i].3
                        &&& self.job_map().dom().contains(matches@[i].job_id@)
                    },
            decreases rest@.len(),
        {
            let ghost n = picks.len() - rest@.len();
            let ghost before = rest@;
            let (provider, multiaddrs, audit, concrete) = rest.pop().unwrap();
            proof {
                assert(before.reverse() =~= seq![before.last()] + rest@.reverse());
                assert(picks.skip(n)[0] == before.last());
                assert forall|j: int| 0 <= j < rest@.len() implies rest@.reverse()[j] == picks.skip(n + 1)[j] by {
                    assert(picks.skip(n)[j + 1] == (seq![before.last()] + rest@.reverse())[j + 1]);
                }
                assert(rest@.reverse() =~= picks.skip(n + 1));
            }
            let job_id = new_job_id();
            let job = Job {
                consumer: req.consumer.clone(),
                provider: provider.clone(),
                model: clone_model(&concrete),
                audit,
                created: now,
            };
            let ghost prev = matches@;
            let ghost pick = picks[n];
            job_insert(&mut self.jobs, job_id.clone(), job);
            matches.push(Match { job_id, provider, multiaddrs, model: concrete, audit });
            proof {
                assert(matches@.drop_last() =~= prev);
                assert(job == job_for(req.consumer, pick, now));
            }
        }
        assert(mid.selected_many(post, picks, req.model, req.consumer@, fanout_width(req.count), ModelCaps::default_spec(), now));
        MatchManyResponse::Matched { matches }
    }

    /// Fan-out matchmaking (see `match_many_at`), now.
    pub fn match_many(&mut self, req: &MatchManyRequest) -> (r: MatchManyResponse)
        ensures
            exists|now: u64| #[trigger] old(self).answered_many(*final(self), r, *req, now),
    {
        let now = now_ms();
        self.match_many_at(req, now)
    }

    /// The ledger row of a peer, if any.
    pub fn ledger_entry(&self, peer: &str) -> (r: Option<LedgerEntry>)
        ensures
            r == self.ledger_map().get(peer@),
    {
        ledger_get(&self.ledger, peer)
    }

    /// Set the ledger row of `peer`, as an operator restoring a ledger would.
    pub fn put_ledger_entry(&mut self, peer: String, e: LedgerEntry)
        ensures
            final(self).ledger_map() == old(self).ledger_map().insert(peer@, e),
            final(self).provider_map() == old(self).provider_map(),
            final(self).job_map() == old(self).job_map(),
            final(self).index_map() == old(self).index_map(),
            final(self).counter() == old(self).counter(),
            final(self).unsigned_allowed() == old(self).unsigned_allowed(),
    {
        ledger_insert(&mut self.ledger, peer, e);
    }

    /// Record an open job under `id`.
    pub fn put_job(&mut self, id: String, job: Job)
        ensures
            final(self).job_map() == old(self).job_map().insert(id@, job),
            final(self).provider_map() == old(self).provider_map(),
            final(self).ledger_map() == old(self).ledger_map(),
            final(self).index_map() == old(self).index_map(),
            final(self).counter() == old(self).counter(),
            final(self).unsigned_allowed() == old(self).unsigned_allowed(),
    {
        job_insert(&mut self.jobs, id, job);
    }

    /// Whether a job with this id is open.
    pub fn has_job(&self, id: &str) -> (r: bool)
        ensures
            r == self.job_map().dom().contains(id@),
    {
        job_contains(&self.jobs, id)
    }

    /// Set when the directory last heard from `peer` (no effect on an
    /// unknown peer).
    pub fn set_last_seen(&mut self, peer: &str, t: u64)
        ensures
            old(self).provider_map().dom().contains(peer@) ==> final(self).provider_map()
                == old(self).provider_map().insert(
                peer@,
                Provider { hb: old(self).provider_map()[peer@].hb, last_seen: t },
            ),
            !old(self).provider_map().dom().contains(peer@) ==> final(self).provider_map()
                == old(self).provider_map(),
            final(self).ledger_map() == old(self).ledger_map(),
            final(self).job_map() == old(self).job_map(),
            final(self).index_map() == old(self).index_map(),
            final(self).counter() == old(self).counter(),
            final(self).unsigned_allowed() == old(self).unsigned_allowed(),
    {
        match provider_get(&self.providers, peer) {
            Some(p) => {
                let q = Provider { hb: p.hb, last_seen: t };
                provider_insert(&mut self.providers, peer.to_owned(), q);
            },
            None => {},
        }
    }

    /// Drop `peer` from the directory, leaving the model index as it is.
    pub fn forget_provider(&mut self, peer: &str)
        ensures
            final(self).provider_map() == old(self).provider_map().remove(peer@),
            final(self).ledger_map() == old(self).ledger_map(),
            final(self).job_map() == old(self).job_map(),
            final(self).index_map() == old(self).index_map(),
            final(self).counter() == old(self).counter(),
            final(self).unsigned_allowed() == old(self).unsigned_allowed(),
    {
        provider_remove(&mut self.providers, peer);
    }

    /// The peers the model index lists under `model` (none when it has no
    /// entry), each once, in the index's own order.
    pub fn indexed_peers(&self, model: &str) -> (r: Vec<String>)
        ensures
            lists_set(
                r@,
                match self.index_map().get(model@) {
                    Some(set) => set,
                    None => Set::<Seq<char>>::empty(),
                },
            ),
    {
        match index_peers(&self.by_model, model) {
            Some(v) => v,
            None => Vec::new(),
        }
    }

    /// `r` lists the heartbeats of the providers live at `now`, in some
    /// order of the directory.
    pub open spec fn live_listing(self, r: Seq<Heartbeat>, now: u64) -> bool {
        exists|entries: Seq<(String, Provider)>|
            #![trigger is_snapshot(entries, self.provider_map())]
            is_snapshot(entries, self.provider_map()) && r == entries.filter(
                |e: (String, Provider)| age(now, e.1.last_seen) < HEARTBEAT_TTL_MS,
            ).map_values(|e: (String, Provider)| e.1.hb)
    }

    /// The heartbeats of the providers live at time `now` (heard from within
    /// the heartbeat TTL), in the directory's own order.
    pub fn live_providers_at(&self, now: u64) -> (r: Vec<Heartbeat>)
        ensures
            self.live_listing(r@, now),
    {
        let entries = provider_entries(&self.providers);
        let ghost all = entries@;
        let ghost live = |e: (String, Provider)| age(now, e.1.last_seen) < HEARTBEAT_TTL_MS;
        let mut rest = into_reversed(entries);
        let mut r: Vec<Heartbeat> = Vec::new();
        while rest.len() > 0
            invariant
                rest@.len() <= all.len(),
                live == (|e: (String, Provider)| age(now, e.1.last_seen) < HEARTBEAT_TTL_MS),
                rest@.reverse() == all.skip(all.len() - rest@.len()),
                r@ == all.take(all.len() - rest@.len()).filter(live).map_values(
                    |e: (String, Provider)| e.1.hb,
                ),
            decreases rest@.len(),
        {
            let ghost n = all.len() - rest@.len();
            let ghost before = rest@;
            let e = rest.pop().unwrap();
            proof {
                assert(before.reverse() =~= seq![before.last()] + rest@.reverse());
                assert(all.skip(n)[0] == before.last());
                assert(all[n] == e);
                assert forall|j: int| 0 <= j < rest@.len() implies rest@.reverse()[j] == all.skip(n + 1)[j] by {
                    assert(all.skip(n)[j + 1] == (seq![before.last()] + rest@.reverse())[j + 1]);
                }
                assert(rest@.reverse() =~= all.skip(n + 1));
                assert(all.take(n + 1) == all.take(n).push(all[n]));
                all.take(n).lemma_filter_push(all[n], live);
            }
            let is_live = now.saturating_sub(e.1.last_seen) < HEARTBEAT_TTL_MS;
            assert(live(all[n]) == (age(now, all[n].1.last_seen) < HEARTBEAT_TTL_MS));
            assert(is_live == (age(now, e.1.last_seen) < HEARTBEAT_TTL_MS));
            assert(is_live == live(all[n]));
            if is_live {
                let ghost prev = r@;
                r.push(e.1.hb);
                proof {
                    assert(r@ =~= prev.push(all[n].1.hb));
                    assert(all.take(n).filter(live).push(all[n]).map_values(|e: (String, Provider)| e.1.hb) =~= all.take(n).filter(live).map_values(|e: (String, Provider)| e.1.hb).push(all[n].1.hb));
                }
            }
        }
        assert(all.take(all.len() as int) =~= all);
        assert(is_snapshot(all, self.provider_map()));
        r
    }

    /// The heartbeats of the providers live now.
    pub fn live_providers(&self) -> (r: Vec<Heartbeat>)
        ensures
            exists|now: u64| #[trigger] self.live_listing(r@, now),
    {
        let now = now_ms();
        self.live_providers_at(now)
    }
}

proof fn lemma_min_offer(offers: Seq<ModelOffer>, req: ModelId, k: int)
    requires
        0 <= k < offers.len(),
        spec_offer_matches(req, offers[k].model),
    ensures
        exists|i: int|
            0 <= i <= k && spec_offer_matches(req, offers[i].model) && forall|j: int|
                0 <= j < i ==> !spec_offer_matches(req, #[trigger] offers[j].model),
    decreases k,
{
    if exists|j: int| 0 <= j < k && spec_offer_matches(req, #[trigger] offers[j].model) {
        let j = choose|j: int| 0 <= j < k && spec_offer_matches(req, #[trigger] offers[j].model);
        lemma_min_offer(offers, req, j);
    }
}

/// The offer `first_offer` designates matches the request.
pub proof fn lemma_first_offer_matches(offers: Seq<ModelOffer>, req: ModelId)
    ensures
        first_offer(offers, req) matches Some(i) ==> 0 <= i < offers.len() && spec_offer_matches(
            req,
            offers[i].model,
        ),
{
    if exists|i: int| 0 <= i < offers.len() && spec_offer_matches(req, #[trigger] offers[i].model) {
        let k = choose|i: int|
            0 <= i < offers.len() && spec_offer_matches(req, #[trigger] offers[i].model);
        lemma_min_offer(offers, req, k);
    }
}

impl State {
    /// Every candidate a sampling yields is what its own peer id yields.
    proof fn lemma_sampled_candidates(
        self,
        post: State,
        cands: Seq<Candidate>,
        req: ModelId,
        consumer: Seq<char>,
        require: ModelCaps,
        now: u64,
    )
        requires
            self.sample_result(post, cands, req, consumer, require, now),
        ensures
            forall|j: int|
                0 <= j < cands.len() ==> self.candidate_of(
                    #[trigger] cands[j].peer,
                    req,
                    consumer,
                    require,
                    now,
                ) == Some(cands[j]),
    {
        if let Some(set) = self.index_map().get(req.name@) {
            let peers = choose|peers: Seq<String>|
                #![trigger lists_set(peers, set)]
                lists_set(peers, set) && self.sampled(post, cands, peers, req, consumer, require, now);
            let f = self.cand_fn(req, consumer, require, now);
            let sc = self.scanned(peers, req, consumer, require, now);
            assert forall|j: int| 0 <= j < cands.len() implies self.candidate_of(
                #[trigger] cands[j].peer,
                req,
                consumer,
                require,
                now,
            ) == Some(cands[j]) by {
                let c = cands[j];
                assert(cands.contains(c));
                if exists|i: int| 0 <= i < sc.len() && #[trigger] sc[i].caps_ok {
                    sc.lemma_filter_contains_rev(|x: Candidate| x.caps_ok, c);
                }
                assert(sc.contains(c));
                let taken = peers.take(scan_length(peers, f));
                taken.lemma_filter_map_contains(f, c);
                let pid = choose|t: String| #[trigger] taken.contains(t) && f(t) == Some(c);
                assert(f(pid) == Some(c));
            }
        }
    }

    /// A match never picks the consumer itself: it picks a provider in the
    /// directory that is live and not full, whose first matching offer is the
    /// concrete model it reports.
    pub proof fn lemma_match_picks_valid_provider(
        self,
        post: State,
        r: Option<(String, Vec<String>, bool, ModelId)>,
        req: ModelId,
        consumer: Seq<char>,
        require: ModelCaps,
        now: u64,
    )
        requires
            self.selected(post, r, req, consumer, require, now),
        ensures
            r matches Some(p) ==> {
                &&& p.0@ != consumer
                &&& self.provider_map().dom().contains(p.0@)
                &&& is_live(self.provider_map()[p.0@], now)
                &&& first_offer(self.provider_map()[p.0@].hb.offers@, req) matches Some(i)
                    && self.provider_map()[p.0@].hb.offers@[i].model == p.3
                &&& spec_offer_matches(req, p.3)
            },
    {
        let cands = choose|cands: Seq<Candidate>|
            {
                &&& #[trigger] self.sample_result(post, cands, req, consumer, require, now)
                &&& cands.len() == 0 ==> r is None && post.counter() == self.counter()
                &&& cands.len() > 0 ==> {
                    let c = self.counter().wrapping_add(1);
                    let pick = self.spec_pick(cands, c);
                    &&& post.counter() == c
                    &&& 0 <= pick.0 < cands.len()
                    &&& r == Some(as_pick(cands[pick.0], pick.1))
                }
            };
        self.lemma_sampled_candidates(post, cands, req, consumer, require, now);
        if cands.len() > 0 {
            let c = self.counter().wrapping_add(1);
            let pick = self.spec_pick(cands, c);
            let cand = cands[pick.0];
            assert(self.candidate_of(cand.peer, req, consumer, require, now) == Some(cand));
            let pv = self.provider_map()[cand.peer@];
            lemma_first_offer_matches(pv.hb.offers@, req);
        }
    }

    /// Sampling yields only live providers of the model other than the
    /// consumer, and it keeps the capable candidates whenever there is one:
    /// when any sampled candidate meets the required capabilities, all do.
    pub proof fn lemma_sample_law(
        self,
        post: State,
        cands: Seq<Candidate>,
        req: ModelId,
        consumer: Seq<char>,
        require: ModelCaps,
        now: u64,
    )
        requires
            self.sample_result(post, cands, req, consumer, require, now),
        ensures
            forall|j: int|
                0 <= j < cands.len() ==> {
                    let c = #[trigger] cands[j];
                    &&& c.peer@ != consumer
                    &&& self.provider_map().dom().contains(c.peer@)
                    &&& is_live(self.provider_map()[c.peer@], now)
                    &&& spec_offer_matches(req, c.model)
                },
            (exists|i: int| 0 <= i < cands.len() && #[trigger] cands[i].caps_ok) ==> forall|j: int|
                0 <= j < cands.len() ==> #[trigger] cands[j].caps_ok,
    {
        self.lemma_sampled_candidates(post, cands, req, consumer, require, now);
        assert forall|j: int| 0 <= j < cands.len() implies {
            let c = #[trigger] cands[j];
            &&& c.peer@ != consumer
            &&& self.provider_map().dom().contains(c.peer@)
            &&& is_live(self.provider_map()[c.peer@], now)
            &&& spec_offer_matches(req, c.model)
        } by {
            let c = cands[j];
            assert(self.candidate_of(c.peer, req, consumer, require, now) == Some(c));
            let pv = self.provider_map()[c.peer@];
            lemma_first_offer_matches(pv.hb.offers@, req);
        }
        if let Some(set) = self.index_map().get(req.name@) {
            let peers = choose|peers: Seq<String>|
                #![trigger lists_set(peers, set)]
                lists_set(peers, set) && self.sampled(post, cands, peers, req, consumer, require, now);
            let sc = self.scanned(peers, req, consumer, require, now);
            if exists|i: int| 0 <= i < sc.len() && #[trigger] sc[i].caps_ok {
                let pred = |x: Candidate| x.caps_ok;
                assert(cands == sc.filter(pred));
                assert forall|j: int| 0 <= j < cands.len() implies #[trigger] cands[j].caps_ok by {
                    sc.filter_lemma(pred);
                }
            } else {
                assert(cands == sc);
            }
        }
    }

    /// Sampling only yields peers the model's index lists, and it prunes the
    /// index alone: the model's entry loses exactly some peers that are no
    /// longer in the directory (never the consumer), among them every such
    /// peer the scan passed over; every other model's entry stays.
    pub proof fn lemma_sample_index_law(
        self,
        post: State,
        cands: Seq<Candidate>,
        req: ModelId,
        consumer: Seq<char>,
        require: ModelCaps,
        now: u64,
    )
        requires
            self.sample_result(post, cands, req, consumer, require, now),
        ensures
            forall|j: int|
                0 <= j < cands.len() ==> self.index_map().dom().contains(req.name@)
                    && self.index_map()[req.name@].contains(#[trigger] cands[j].peer@),
            forall|m: Seq<char>| m != req.name@ ==> #[trigger] post.index_map().get(m) == self.index_map().get(m),
            !self.index_map().dom().contains(req.name@) ==> post.index_map() == self.index_map(),
            self.index_map().dom().contains(req.name@) ==> {
                &&& post.index_map().dom().contains(req.name@)
                &&& forall|p: Seq<char>| #[trigger] post.index_map()[req.name@].contains(p)
                    ==> self.index_map()[req.name@].contains(p)
                &&& forall|p: Seq<char>|
                    self.index_map()[req.name@].contains(p) && !(#[trigger] post.index_map()[req.name@].contains(p))
                        ==> p != consumer && !self.provider_map().dom().contains(p)
                &&& exists|peers: Seq<String>|
                    #![trigger lists_set(peers, self.index_map()[req.name@])]
                    lists_set(peers, self.index_map()[req.name@]) && forall|i: int|
                        0 <= i < scan_length(peers, self.cand_fn(req, consumer, require, now))
                            && self.is_stale(#[trigger] peers[i], consumer)
                            ==> !post.index_map()[req.name@].contains(peers[i]@)
            },
            post.provider_map() == self.provider_map(),
            post.ledger_map() == self.ledger_map(),
            post.job_map() == self.job_map(),
    {
        self.lemma_sampled_candidates(post, cands, req, consumer, require, now);
        match self.index_map().get(req.name@) {
            None => {},
            Some(set) => {
                let peers = choose|peers: Seq<String>|
                    #![trigger lists_set(peers, set)]
                    lists_set(peers, set) && self.sampled(post, cands, peers, req, consumer, require, now);
                let f = self.cand_fn(req, consumer, require, now);
                let n = scan_length(peers, f);
                lemma_scan_length_range(peers, f);
                let taken = peers.take(n);
                let sc = self.scanned(peers, req, consumer, require, now);
                let pred = |pid: String| self.is_stale(pid, consumer);
                let stale = taken.filter(pred);
                taken.filter_lemma(pred);
                let gone = stale.map_values(|p: String| p@).to_set();
                assert(post.index_map()[req.name@] == set.difference(gone));
                assert forall|j: int| 0 <= j < cands.len() implies set.contains(#[trigger] cands[j].peer@) by {
                    let c = cands[j];
                    assert(cands.contains(c));
                    if exists|i: int| 0 <= i < sc.len() && #[trigger] sc[i].caps_ok {
                        sc.lemma_filter_contains_rev(|x: Candidate| x.caps_ok, c);
                    }
                    assert(sc.contains(c));
                    taken.lemma_filter_map_contains(f, c);
                    let pid = choose|t: String| #[trigger] taken.contains(t) && f(t) == Some(c);
                    assert(f(pid) == Some(c));
                    let q = choose|q: int| 0 <= q < taken.len() && taken[q] == pid;
                    assert(peers[q] == taken[q]);
                }
                assert forall|p: Seq<char>|
                    set.contains(p) && !(#[trigger] post.index_map()[req.name@].contains(p))
                        implies p != consumer && !self.provider_map().dom().contains(p) by {
                    let ids = peer_texts(stale);
                    assert(ids =~= stale.map_values(|x: String| x@));
                    assert(ids.to_set().contains(p));
                    assert(ids.contains(p));
                    let q = choose|q: int| 0 <= q < ids.len() && #[trigger] ids[q] == p;
                    assert(pred(stale[q]));
                }
                assert forall|i: int|
                    0 <= i < n && self.is_stale(#[trigger] peers[i], consumer)
                        implies !post.index_map()[req.name@].contains(peers[i]@) by {
                    assert(taken[i] == peers[i]);
                    assert(stale.contains(peers[i]));
                    let q = choose|q: int| 0 <= q < stale.len() && stale[q] == peers[i];
                    let ids = peer_texts(stale);
                    assert(ids =~= stale.map_values(|x: String| x@));
                    assert(ids[q] == peers[i]@);
                    assert(ids.contains(peers[i]@));
                    assert(gone.contains(peers[i]@));
                }
                assert(lists_set(peers, self.index_map()[req.name@]));
            },
        }
    }

    /// When the sample holds a capable candidate, the selected provider is
    /// one whose offer for the model meets the requirement.
    pub proof fn lemma_select_capable(
        self,
        post: State,
        r: Option<(String, Vec<String>, bool, ModelId)>,
        req: ModelId,
        consumer: Seq<char>,
        require: ModelCaps,
        now: u64,
    )
        requires
            self.selected(post, r, req, consumer, require, now),
        ensures
            exists|cands: Seq<Candidate>|
                {
                    &&& #[trigger] self.sample_result(post, cands, req, consumer, require, now)
                    &&& (exists|i: int| 0 <= i < cands.len() && #[trigger] cands[i].caps_ok) ==> (
                    r matches Some(p) && self.provider_map().dom().contains(p.0@) && (first_offer(
                        self.provider_map()[p.0@].hb.offers@,
                        req,
                    ) matches Some(k) && self.provider_map()[p.0@].hb.offers@[k].model == p.3
                        && self.provider_map()[p.0@].hb.offers@[k].caps.spec_satisfies(require)))
                },
    {
        let cands = choose|cands: Seq<Candidate>|
            {
                &&& #[trigger] self.sample_result(post, cands, req, consumer, require, now)
                &&& cands.len() == 0 ==> r is None && post.counter() == self.counter()
                &&& cands.len() > 0 ==> {
                    let c = self.counter().wrapping_add(1);
                    let pick = self.spec_pick(cands, c);
                    &&& post.counter() == c
                    &&& 0 <= pick.0 < cands.len()
                    &&& r == Some(as_pick(cands[pick.0], pick.1))
                }
            };
        self.lemma_sample_law(post, cands, req, consumer, require, now);
        self.lemma_sampled_candidates(post, cands, req, consumer, require, now);
        if exists|i: int| 0 <= i < cands.len() && #[trigger] cands[i].caps_ok {
            let c = self.counter().wrapping_add(1);
            let pick = self.spec_pick(cands, c);
            let cand = cands[pick.0];
            assert(cand.caps_ok);
            assert(self.candidate_of(cand.peer, req, consumer, require, now) == Some(cand));
        }
    }
}

/// The audit slot: on every `AUDIT_EVERY`-th match, when a newcomer is among
/// the candidates, the pick is an audit of a newcomer; on every other match
/// the pick is not an audit.
pub proof fn lemma_audit_slot(s: State, cands: Seq<Candidate>, counter: u64)
    requires
        cands.len() <= usize::MAX,
    ensures
        counter % AUDIT_EVERY == 0 && (exists|i: int| 0 <= i < cands.len() && #[trigger] cands[i].newcomer)
            ==> s.spec_pick(cands, counter).1 && 0 <= s.spec_pick(cands, counter).0 < cands.len()
            && cands[s.spec_pick(cands, counter).0].newcomer,
        counter % AUDIT_EVERY != 0 ==> !s.spec_pick(cands, counter).1,
{
    let all = Seq::new(cands.len(), |i: int| i);
    let pred = |i: int| cands[i].newcomer;
    let pos = newcomer_positions(cands);
    if counter % AUDIT_EVERY == 0 && (exists|i: int| 0 <= i < cands.len() && #[trigger] cands[i].newcomer) {
        let i = choose|i: int| 0 <= i < cands.len() && #[trigger] cands[i].newcomer;
        assert(all[i] == i);
        all.lemma_filter_contains(pred, i);
        assert(pos.contains(i));
        assert(pos.len() > 0);
        #[allow(deprecated)]
        all.filter_lemma(pred);
        assert(pos.len() <= cands.len());
        assert(pos.len() as usize == pos.len());
        let k = ((counter as usize) % (pos.len() as usize)) as int;
        assert(0 <= k < pos.len());
        let x = pos[k];
        assert(pos.contains(x));
        all.lemma_filter_contains_rev(pred, x);
        #[allow(deprecated)]
        all.filter_lemma(pred);
        assert(pred(pos[k]));
    }
}

/// A fan-out never returns more providers than asked for.
pub proof fn lemma_fanout_at_most_k(s: State, cands: Seq<Candidate>, k: int)
    requires
        k >= 0,
    ensures
        s.best_k(cands, k).len() <= k,
{
}

/// A job settles at most once: an accepted settlement removes the job, so
/// the same job can no longer be found.
pub proof fn lemma_settles_once(before: State, after: State, job_id: Seq<char>)
    requires
        after.job_map() == before.job_map().remove(job_id),
    ensures
        !after.job_map().dom().contains(job_id),
{
}

/// Settling moves the receipt's tokens: the provider's served count and the
/// consumer's consumed count both grow by exactly the settled tokens
/// (wrapping at the integer width), and no other row changes.
pub proof fn lemma_settle_moves_tokens(s: State, j: Job, tokens: u64, completed: bool, now: u64)
    requires
        j.provider@ != j.consumer@,
    ensures
        ({
            let l = s.settled_ledger(j, tokens, completed, now);
            &&& l[j.provider@].served == entry_or_new(s.ledger_map(), j.provider, now).served.wrapping_add(tokens)
            &&& l[j.provider@].consumed == entry_or_new(s.ledger_map(), j.provider, now).consumed
            &&& l[j.consumer@].consumed == entry_or_new(s.ledger_map(), j.consumer, now).consumed.wrapping_add(tokens)
            &&& l[j.consumer@].served == entry_or_new(s.ledger_map(), j.consumer, now).served
            &&& forall|p: Seq<char>| p != j.provider@ && p != j.consumer@ ==> (#[trigger] l.dom().contains(p)
                == s.ledger_map().dom().contains(p)) && (l.dom().contains(p) ==> l[p] == s.ledger_map()[p])
        }),
{
}

/// No two candidates share a peer.
pub open spec fn distinct_peers(s: Seq<Candidate>) -> bool {
    forall|i: int, j: int| 0 <= i < j < s.len() ==> (#[trigger] s[i]).peer@ != (#[trigger] s[j]).peer@
}

/// No two picks name the same provider.
pub open spec fn distinct_picks(s: Seq<(String, Vec<String>, bool, ModelId)>) -> bool {
    forall|i: int, j: int| 0 <= i < j < s.len() ==> (#[trigger] s[i]).0@ != (#[trigger] s[j]).0@
}

proof fn lemma_filter_map_distinct(ps: Seq<String>, f: spec_fn(String) -> Option<Candidate>)
    requires
        forall|i: int, j: int| 0 <= i < j < ps.len() ==> (#[trigger] ps[i])@ != (#[trigger] ps[j])@,
        forall|t: String| (#[trigger] f(t)) is Some ==> f(t).unwrap().peer == t,
    ensures
        distinct_peers(ps.filter_map(f)),
        forall|c: Candidate| #[trigger] ps.filter_map(f).contains(c) ==> exists|i: int|
            0 <= i < ps.len() && ps[i] == c.peer,
    decreases ps.len(),
{
    if ps.len() > 0 {
        let rest = ps.drop_last();
        lemma_filter_map_distinct(rest, f);
        let r = ps.filter_map(f);
        assert forall|c: Candidate| #[trigger] r.contains(c) implies exists|i: int|
            0 <= i < ps.len() && ps[i] == c.peer by {
            ps.lemma_filter_map_contains(f, c);
            let t = choose|t: String| #[trigger] ps.contains(t) && f(t) == Some(c);
            let i = choose|i: int| 0 <= i < ps.len() && ps[i] == t;
        }
        match f(ps.last()) {
            Some(c) => {
                let sub = rest.filter_map(f);
                assert(r =~= sub + seq![c]);
                assert forall|i: int, j: int| 0 <= i < j < r.len() implies (#[trigger] r[i]).peer@
                    != (#[trigger] r[j]).peer@ by {
                    if j == r.len() - 1 {
                        assert(sub.contains(r[i]));
                        let k = choose|k: int| 0 <= k < rest.len() && rest[k] == r[i].peer;
                        assert(ps[k] == rest[k]);
                    }
                }
            },
            None => {},
        }
    }
}

proof fn lemma_filter_distinct(s: Seq<Candidate>, pred: spec_fn(Candidate) -> bool)
    requires
        distinct_peers(s),
    ensures
        distinct_peers(s.filter(pred)),
    decreases s.len(),
{
    reveal(Seq::filter);
    if s.len() > 0 {
        let rest = s.drop_last();
        lemma_filter_distinct(rest, pred);
        let sub = rest.filter(pred);
        if !pred(s.last()) {
            assert(s.filter(pred) == sub);
        } else {
            let r = sub.push(s.last());
            assert(s.filter(pred) == r);
            assert forall|i: int, j: int| 0 <= i < j < r.len() implies (#[trigger] r[i]).peer@
                != (#[trigger] r[j]).peer@ by {
                if j == r.len() - 1 {
                    assert(sub.contains(r[i]));
                    rest.lemma_filter_contains_rev(pred, r[i]);
                    let k = choose|k: int| 0 <= k < rest.len() && rest[k] == r[i];
                    assert(s[k] == rest[k]);
                }
            }
        }
    }
}

proof fn lemma_min_scan(peers: Seq<String>, f: spec_fn(String) -> Option<Candidate>, k: int)
    requires
        0 <= k <= peers.len(),
        peers.take(k).filter_map(f).len() == MATCH_SAMPLE,
    ensures
        exists|n: int|
            0 <= n <= k && peers.take(n).filter_map(f).len() == MATCH_SAMPLE && forall|m: int|
                0 <= m < n ==> #[trigger] peers.take(m).filter_map(f).len() < MATCH_SAMPLE,
    decreases k,
{
    if exists|m: int| 0 <= m < k && !(#[trigger] peers.take(m).filter_map(f).len() < MATCH_SAMPLE) {
        let m = choose|m: int|
            0 <= m < k && !(#[trigger] peers.take(m).filter_map(f).len() < MATCH_SAMPLE);
        lemma_filter_map_take_bounded(peers, f, m, k);
        lemma_min_scan(peers, f, m);
    }
}

/// Taking more entries never yields fewer candidates.
proof fn lemma_filter_map_take_bounded(peers: Seq<String>, f: spec_fn(String) -> Option<Candidate>, m: int, k: int)
    requires
        0 <= m <= k <= peers.len(),
        peers.take(k).filter_map(f).len() == MATCH_SAMPLE,
    ensures
        peers.take(m).filter_map(f).len() <= MATCH_SAMPLE,
    decreases k - m,
{
    if m < k {
        lemma_filter_map_take_bounded(peers, f, m + 1, k);
        peers.lemma_filter_map_take_succ(f, m);
    }
}

proof fn lemma_scan_length_range(peers: Seq<String>, f: spec_fn(String) -> Option<Candidate>)
    ensures
        0 <= scan_length(peers, f) <= peers.len(),
{
    let lim = if peers.len() < MATCH_MAX_SCAN {
        peers.len() as int
    } else {
        MATCH_MAX_SCAN as int
    };
    if exists|n: int| 0 <= n <= lim && #[trigger] peers.take(n).filter_map(f).len() == MATCH_SAMPLE {
        let k = choose|n: int| 0 <= n <= lim && #[trigger] peers.take(n).filter_map(f).len() == MATCH_SAMPLE;
        lemma_min_scan(peers, f, k);
    }
}

proof fn lemma_min_insert(sorted: Seq<(u64, Candidate)>, w: u64, k: int)
    requires
        0 <= k < sorted.len(),
        sorted[k].0 < w,
    ensures
        exists|p: int|
            0 <= p <= k && sorted[p].0 < w && forall|q: int| 0 <= q < p ==> #[trigger] sorted[q].0 >= w,
    decreases k,
{
    if exists|q: int| 0 <= q < k && !(#[trigger] sorted[q].0 >= w) {
        let q = choose|q: int| 0 <= q < k && !(#[trigger] sorted[q].0 >= w);
        lemma_min_insert(sorted, w, q);
    }
}

proof fn lemma_insert_pos_range(sorted: Seq<(u64, Candidate)>, w: u64)
    ensures
        0 <= insert_pos(sorted, w) <= sorted.len(),
{
    if exists|p: int| 0 <= p < sorted.len() && #[trigger] sorted[p].0 < w {
        let k = choose|p: int| 0 <= p < sorted.len() && #[trigger] sorted[p].0 < w;
        lemma_min_insert(sorted, w, k);
    }
}

/// Where a weight is inserted: after every entry at least as heavy, before
/// the first lighter one.
proof fn lemma_insert_pos_props(sorted: Seq<(u64, Candidate)>, w: u64)
    ensures
        0 <= insert_pos(sorted, w) <= sorted.len(),
        forall|q: int| 0 <= q < insert_pos(sorted, w) ==> #[trigger] sorted[q].0 >= w,
        insert_pos(sorted, w) < sorted.len() ==> sorted[insert_pos(sorted, w)].0 < w,
{
    if exists|x: int| 0 <= x < sorted.len() && #[trigger] sorted[x].0 < w {
        let k = choose|x: int| 0 <= x < sorted.len() && #[trigger] sorted[x].0 < w;
        lemma_min_insert(sorted, w, k);
    }
}

/// Inserting a weight where `insert_pos` puts it keeps a list in
/// non-increasing order.
proof fn lemma_insert_keeps_order(rest: Seq<(u64, Candidate)>, e: (u64, Candidate))
    requires
        forall|i: int, j: int| 0 <= i < j < rest.len() ==> (#[trigger] rest[i]).0 >= (#[trigger] rest[j]).0,
    ensures
        ({
            let r = rest.insert(insert_pos(rest, e.0), e);
            forall|i: int, j: int| 0 <= i < j < r.len() ==> (#[trigger] r[i]).0 >= (#[trigger] r[j]).0
        }),
{
    let p = insert_pos(rest, e.0);
    lemma_insert_pos_props(rest, e.0);
    rest.insert_ensures(p, e);
    let r = rest.insert(p, e);
    assert forall|i: int, j: int| 0 <= i < j < r.len() implies (#[trigger] r[i]).0 >= (#[trigger] r[j]).0 by {
        let wi = if i < p { rest[i].0 } else if i == p { e.0 } else { rest[i - 1].0 };
        let wj = if j < p { rest[j].0 } else if j == p { e.0 } else { rest[j - 1].0 };
        assert(r[i].0 == wi);
        assert(r[j].0 == wj);
        if j > p && i <= p {
            assert(rest[p].0 < e.0);
            assert(rest[p].0 >= rest[j - 1].0 || p == j - 1);
        }
    }
}

/// Sorting orders by non-increasing weight.
proof fn lemma_sort_desc_sorted(s: Seq<(u64, Candidate)>)
    ensures
        forall|i: int, j: int|
            0 <= i < j < sort_desc(s).len() ==> (#[trigger] sort_desc(s)[i]).0 >= (#[trigger] sort_desc(s)[j]).0,
    decreases s.len(),
{
    if s.len() > 0 {
        lemma_sort_desc_sorted(s.drop_last());
        lemma_insert_keeps_order(sort_desc(s.drop_last()), s.last());
    }
}

/// Sorting rearranges: it keeps every entry, as often as it occurs.
proof fn lemma_sort_desc_perm(s: Seq<(u64, Candidate)>)
    ensures
        sort_desc(s).to_multiset() == s.to_multiset(),
    decreases s.len(),
{
    if s.len() > 0 {
        let rest = sort_desc(s.drop_last());
        lemma_sort_desc_perm(s.drop_last());
        let e = s.last();
        let p = insert_pos(rest, e.0);
        lemma_insert_pos_range(rest, e.0);
        vstd::seq_lib::to_multiset_insert(rest, p, e);
        vstd::seq_lib::to_multiset_build(s.drop_last(), e);
        assert(s.drop_last().push(e) =~= s);
    }
}

impl State {
    /// Fan-out takes the strongest: listing the candidates from strongest to
    /// weakest by selection weight (`cand_weight`), the result holds the first
    /// `k` of them in that order, and every candidate left out weighs no more
    /// than every candidate taken.
    pub proof fn lemma_best_k_strongest(self, cands: Seq<Candidate>, k: int)
        requires
            0 <= k,
        ensures
            exists|order: Seq<Candidate>|
                {
                    &&& order.to_multiset() == cands.to_multiset()
                    &&& forall|i: int, j: int|
                        0 <= i < j < order.len() ==> self.cand_weight(#[trigger] order[i])
                            >= self.cand_weight(#[trigger] order[j])
                    &&& self.best_k(cands, k).len() == if k < cands.len() {
                        k
                    } else {
                        cands.len() as int
                    }
                    &&& forall|i: int|
                        0 <= i < self.best_k(cands, k).len() ==> #[trigger] self.best_k(cands, k)[i]
                            == as_pick(order[i], order[i].newcomer)
                    &&& forall|i: int, j: int|
                        0 <= i < self.best_k(cands, k).len() <= j < order.len() ==> self.cand_weight(
                            #[trigger] order[j],
                        ) <= self.cand_weight(#[trigger] order[i])
                },
    {
        let ws = self.with_weights(cands);
        let sorted = sort_desc(ws);
        lemma_sort_desc_sorted(ws);
        lemma_sort_desc_perm(ws);
        lemma_sort_desc_len(ws);
        let order = sorted.map_values(|p: (u64, Candidate)| p.1);
        assert forall|i: int| 0 <= i < sorted.len() implies (#[trigger] sorted[i]).0 == self.cand_weight(sorted[i].1) by {
            assert(sorted.to_multiset().count(sorted[i]) > 0) by {
                vstd::seq_lib::to_multiset_contains(sorted, sorted[i]);
            }
            vstd::seq_lib::to_multiset_contains(ws, sorted[i]);
            let q = choose|q: int| 0 <= q < ws.len() && ws[q] == sorted[i];
        }
        lemma_map_second_multiset(ws, cands, self);
        lemma_sort_desc_perm_second(ws);
        let n = if k < cands.len() { k } else { cands.len() as int };
        assert(self.best_k(cands, k) =~= sorted.take(n).map_values(|p: (u64, Candidate)| as_pick(p.1, p.1.newcomer)));
        assert forall|i: int, j: int|
            0 <= i < j < order.len() implies self.cand_weight(#[trigger] order[i]) >= self.cand_weight(#[trigger] order[j]) by {
            assert(sorted[i].0 >= sorted[j].0);
        }
        assert forall|i: int, j: int|
            0 <= i < self.best_k(cands, k).len() <= j < order.len() implies self.cand_weight(
                #[trigger] order[j],
            ) <= self.cand_weight(#[trigger] order[i]) by {
            assert(sorted[i].0 >= sorted[j].0);
        }
        assert forall|i: int| 0 <= i < self.best_k(cands, k).len() implies #[trigger] self.best_k(cands, k)[i]
            == as_pick(order[i], order[i].newcomer) by {
            assert(sorted.take(n)[i] == sorted[i]);
        }
    }
}

proof fn lemma_sort_desc_len(s: Seq<(u64, Candidate)>)
    ensures
        sort_desc(s).len() == s.len(),
    decreases s.len(),
{
    if s.len() > 0 {
        lemma_sort_desc_len(s.drop_last());
        let rest = sort_desc(s.drop_last());
        lemma_insert_pos_range(rest, s.last().0);
    }
}

/// The candidates of a weighted list, as a multiset, are the candidates
/// weighed.
proof fn lemma_map_second_multiset(ws: Seq<(u64, Candidate)>, cands: Seq<Candidate>, st: State)
    requires
        ws == st.with_weights(cands),
    ensures
        ws.map_values(|p: (u64, Candidate)| p.1) =~= cands,
{
}

/// Sorting rearranges the candidates alike.
proof fn lemma_sort_desc_perm_second(s: Seq<(u64, Candidate)>)
    ensures
        sort_desc(s).map_values(|p: (u64, Candidate)| p.1).to_multiset() == s.map_values(
            |p: (u64, Candidate)| p.1,
        ).to_multiset(),
    decreases s.len(),
{
    if s.len() > 0 {
        let f = |p: (u64, Candidate)| p.1;
        let rest = sort_desc(s.drop_last());
        lemma_sort_desc_perm_second(s.drop_last());
        let e = s.last();
        let p = insert_pos(rest, e.0);
        lemma_insert_pos_range(rest, e.0);
        rest.insert_ensures(p, e);
        assert(rest.insert(p, e).map_values(f) =~= rest.map_values(f).insert(p, e.1));
        vstd::seq_lib::to_multiset_insert(rest.map_values(f), p, e.1);
        assert(s.map_values(f) =~= s.drop_last().map_values(f).push(e.1));
        vstd::seq_lib::to_multiset_build(s.drop_last().map_values(f), e.1);
    }
}

/// Sorting keeps the candidates (no two of which share a peer) and adds none.
#[verifier::spinoff_prover]
#[verifier::rlimit(40)]
proof fn lemma_sort_desc_distinct(s: Seq<(u64, Candidate)>)
    requires
        forall|i: int, j: int| 0 <= i < j < s.len() ==> (#[trigger] s[i]).1.peer@ != (#[trigger] s[j]).1.peer@,
    ensures
        sort_desc(s).len() == s.len(),
        forall|i: int, j: int|
            0 <= i < j < sort_desc(s).len() ==> (#[trigger] sort_desc(s)[i]).1.peer@ != (
            #[trigger] sort_desc(s)[j]).1.peer@,
        forall|i: int| 0 <= i < sort_desc(s).len() ==> s.contains(#[trigger] sort_desc(s)[i]),
    decreases s.len(),
{
    if s.len() > 0 {
        let rest_in = s.drop_last();
        lemma_sort_desc_distinct(rest_in);
        let rest = sort_desc(rest_in);
        let e = s.last();
        let p = insert_pos(rest, e.0);
        lemma_insert_pos_range(rest, e.0);
        rest.insert_ensures(p, e);
        let r = rest.insert(p, e);
        assert(sort_desc(s) == r);
        assert forall|i: int| 0 <= i < rest.len() implies (#[trigger] rest[i]).1.peer@ != e.1.peer@ by {
            assert(rest_in.contains(rest[i]));
            let k = choose|k: int| 0 <= k < rest_in.len() && rest_in[k] == rest[i];
            assert(s[k] == rest_in[k]);
        }
        assert forall|i: int| 0 <= i < r.len() implies s.contains(#[trigger] r[i]) by {
            if i < p {
                assert(r[i] == rest[i]);
                assert(rest_in.contains(rest[i]));
                let k = choose|k: int| 0 <= k < rest_in.len() && rest_in[k] == rest[i];
                assert(s[k] == rest_in[k]);
            } else if i == p {
                assert(s[s.len() - 1] == e);
            } else {
                assert(r[i] == rest[i - 1]);
                assert(rest_in.contains(rest[i - 1]));
                let k = choose|k: int| 0 <= k < rest_in.len() && rest_in[k] == rest[i - 1];
                assert(s[k] == rest_in[k]);
            }
        }
        assert forall|i: int, j: int| 0 <= i < j < r.len() implies (#[trigger] r[i]).1.peer@
            != (#[trigger] r[j]).1.peer@ by {
            if i < p {
                assert(r[i] == rest[i]);
            } else if i > p {
                assert(r[i] == rest[i - 1]);
            }
            if j < p {
                assert(r[j] == rest[j]);
            } else if j > p {
                assert(r[j] == rest[j - 1]);
            }
        }
    }
}

impl State {
    proof fn lemma_sampled_distinct(
        self,
        post: State,
        cands: Seq<Candidate>,
        req: ModelId,
        consumer: Seq<char>,
        require: ModelCaps,
        now: u64,
    )
        requires
            self.sample_result(post, cands, req, consumer, require, now),
        ensures
            distinct_peers(cands),
    {
        if let Some(set) = self.index_map().get(req.name@) {
            let peers = choose|peers: Seq<String>|
                #![trigger lists_set(peers, set)]
                lists_set(peers, set) && self.sampled(post, cands, peers, req, consumer, require, now);
            let f = self.cand_fn(req, consumer, require, now);
            let n = scan_length(peers, f);
            let taken = peers.take(n);
            lemma_scan_length_range(peers, f);
            if 0 <= n <= peers.len() {
                assert forall|i: int, j: int| 0 <= i < j < taken.len() implies (#[trigger] taken[i])@
                    != (#[trigger] taken[j])@ by {
                    assert(taken[i] == peers[i] && taken[j] == peers[j]);
                }
            }
            assert forall|t: String| (#[trigger] f(t)) is Some implies f(t).unwrap().peer == t by {}
            lemma_scan_length_range(peers, f);
            lemma_filter_map_distinct(taken, f);
            let sc = taken.filter_map(f);
            lemma_filter_distinct(sc, |x: Candidate| x.caps_ok);
        }
    }

    /// A fan-out returns at most `k` providers, no two of them the same.
    pub proof fn lemma_fanout_distinct(
        self,
        post: State,
        r: Seq<(String, Vec<String>, bool, ModelId)>,
        req: ModelId,
        consumer: Seq<char>,
        k: int,
        require: ModelCaps,
        now: u64,
    )
        requires
            k >= 0,
            self.selected_many(post, r, req, consumer, k, require, now),
        ensures
            r.len() <= k,
            distinct_picks(r),
    {
        let cands = choose|cands: Seq<Candidate>|
            {
                &&& #[trigger] self.sample_result(post, cands, req, consumer, require, now)
                &&& r == self.best_k(cands, k)
            };
        self.lemma_sampled_distinct(post, cands, req, consumer, require, now);
        let ww = self.with_weights(cands);
        assert forall|i: int, j: int| 0 <= i < j < ww.len() implies (#[trigger] ww[i]).1.peer@
            != (#[trigger] ww[j]).1.peer@ by {
            assert(ww[i].1 == cands[i] && ww[j].1 == cands[j]);
        }
        lemma_sort_desc_distinct(ww);
    }
}

} // verus!

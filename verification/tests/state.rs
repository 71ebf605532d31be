use std::collections::HashSet;

use p2ptokens::clock::now_ms;
use p2ptokens::coordinator::{
    splitmix64, validate_heartbeat, weighted_index, Job, State, AUDIT_EVERY, HEARTBEAT_TTL_MS,
    JOB_TTL_MS, MAX_CAPACITY, MAX_OFFERS, NEWCOMER_AUDIT_THRESHOLD, NEWCOMER_GRACE_TOKENS,
};
use p2ptokens::crypto::{generate_identity, peer_id};
use p2ptokens::types::{Heartbeat, LedgerEntry, ModelCaps, ModelId, ModelOffer};

fn model(name: &str) -> ModelId {
    ModelId { name: name.into(), quant: None }
}

fn model_q(name: &str, q: &str) -> ModelId {
    ModelId { name: name.into(), quant: Some(q.into()) }
}

fn offer(m: &ModelId) -> ModelOffer {
    ModelOffer {
        model: m.clone(),
        backend: "ollama".into(),
        caps: ModelCaps::default(),
        tokens_per_sec_milli: 0,
    }
}

fn hb(peer: &str, m: &ModelId, cap: u32, inflight: u32) -> Heartbeat {
    Heartbeat {
        peer_id: peer.into(),
        multiaddrs: vec!["/ip4/203.0.113.7/tcp/40833".into()],
        offers: vec![offer(m)],
        capacity: cap,
        in_flight: inflight,
        pubkey: String::new(),
        sig: String::new(),
    }
}

/// A heartbeat whose single offer advertises a serving throughput, in
/// thousandths of a token per second.
fn hb_tps(peer: &str, m: &ModelId, tps_milli: u64) -> Heartbeat {
    let mut h = hb(peer, m, 4, 0);
    h.offers[0].tokens_per_sec_milli = tps_milli;
    h
}

fn caps(tools: bool) -> ModelCaps {
    ModelCaps { tools, ..Default::default() }
}

/// Insert a non-newcomer ledger row with a fixed reputation (in ppm).
fn set_rep(st: &mut State, peer: &str, rep_ppm: u32) {
    let mut e = LedgerEntry::new(peer.to_string(), now_ms());
    e.reputation_ppm = rep_ppm;
    e.audits_total = NEWCOMER_AUDIT_THRESHOLD + 2;
    e.audits_passed = e.audits_total;
    st.put_ledger_entry(peer.to_string(), e);
}

fn state() -> State {
    State::new(false, None)
}

// ---- matchmaking ----
#[test]
fn no_providers_yields_none() {
    let mut st = state();
    assert!(st.select_provider(&model("llama"), "consumer").is_none());
}

#[test]
fn matches_live_provider_and_returns_concrete_model() {
    let mut st = state();
    st.register(hb("alice", &model_q("llama", "q4"), 4, 0));
    let m = st.select_provider(&model("llama"), "consumer").expect("match");
    assert_eq!(m.0, "alice");
    assert_eq!(m.3.name, "llama");
    assert_eq!(m.3.quant.as_deref(), Some("q4")); // concrete quant handed back
}

#[test]
fn excludes_the_consumer_itself() {
    let mut st = state();
    st.register(hb("alice", &model("llama"), 4, 0));
    assert!(st.select_provider(&model("llama"), "alice").is_none());
}

#[test]
fn skips_full_providers() {
    let mut st = state();
    st.register(hb("alice", &model("llama"), 4, 4)); // in_flight == capacity
    assert!(st.select_provider(&model("llama"), "c").is_none());
}

#[test]
fn stale_provider_is_skipped() {
    let mut st = state();
    st.register(hb("alice", &model("llama"), 4, 0));
    st.set_last_seen("alice", now_ms().saturating_sub(HEARTBEAT_TTL_MS + 1_000));
    assert!(st.select_provider(&model("llama"), "c").is_none());
}

#[test]
fn vanished_provider_is_pruned_from_index() {
    let mut st = state();
    st.register(hb("alice", &model("llama"), 4, 0));
    st.forget_provider("alice"); // peer gone from the directory but still indexed
    assert!(st.select_provider(&model("llama"), "c").is_none());
    // lazily pruned from the per-model index on the next match
    assert!(st.indexed_peers("llama").is_empty());
}

#[test]
fn quant_matching_rules() {
    let mut st = state();
    st.register(hb("alice", &model_q("llama", "q4"), 4, 0));
    assert!(st.select_provider(&model_q("llama", "q8"), "c").is_none()); // wrong quant
    assert!(st.select_provider(&model_q("llama", "q4"), "c").is_some()); // exact quant
    assert!(st.select_provider(&model("llama"), "c").is_some()); // no quant -> any
    assert!(st.select_provider(&model("mistral"), "c").is_none()); // wrong name
}

#[test]
fn weighted_selection_favors_reputation_but_spreads() {
    let mut st = state();
    st.register(hb("low", &model("llama"), 4, 0));
    st.register(hb("high", &model("llama"), 4, 0));
    set_rep(&mut st, "low", 300_000);
    set_rep(&mut st, "high", 950_000); // both non-newcomers -> no audit slot interference
    let (mut hi, mut lo) = (0, 0);
    for _ in 0..300 {
        match st.select_provider(&model("llama"), "c").unwrap().0.as_str() {
            "high" => hi += 1,
            "low" => lo += 1,
            other => panic!("unexpected provider {other}"),
        }
    }
    assert!(hi > lo, "higher reputation wins more often ({hi} vs {lo})");
    assert!(lo > 0, "lower reputation is not starved ({lo})");
}

#[test]
fn weighted_selection_favors_faster_throughput() {
    let mut st = state();
    st.register(hb_tps("fast", &model("llama"), 100_000));
    st.register(hb_tps("slow", &model("llama"), 1_000));
    // Equal reputation -> throughput is the only differentiator.
    set_rep(&mut st, "fast", 900_000);
    set_rep(&mut st, "slow", 900_000);
    let (mut f, mut s) = (0, 0);
    for _ in 0..300 {
        match st.select_provider(&model("llama"), "c").unwrap().0.as_str() {
            "fast" => f += 1,
            "slow" => s += 1,
            other => panic!("unexpected provider {other}"),
        }
    }
    assert!(f > s, "faster peer wins more often ({f} vs {s})");
    assert!(s > 0, "slow peer is not starved ({s})");
}

#[test]
fn capability_filter_prefers_capable_then_falls_back() {
    let mut st = state();
    let mut cap = hb("capable", &model("llama"), 4, 0);
    cap.offers[0].caps = caps(true);
    st.register(cap);
    st.register(hb("plain", &model("llama"), 4, 0));
    set_rep(&mut st, "capable", 500_000); // lower rep, but it's the only capable one
    set_rep(&mut st, "plain", 990_000);
    let require = caps(true);
    for _ in 0..30 {
        let m = st.select_provider_req(&model("llama"), "c", &require).unwrap();
        assert_eq!(m.0, "capable", "tools request must hit the capable peer");
    }
    // When no provider is capable, fall back to serving the model anyway.
    let mut st2 = state();
    st2.register(hb("plain", &model("llama"), 4, 0));
    assert!(
        st2.select_provider_req(&model("llama"), "c", &require).is_some(),
        "capability filter must fall back when nobody is capable"
    );
}

#[test]
fn weighted_index_bounds_and_skew() {
    assert_eq!(weighted_index(&[], 1), 0, "empty -> 0");
    assert_eq!(weighted_index(&[0, 0], 1), 0, "all-zero weights -> 0");
    assert_eq!(weighted_index(&[1], 7), 0, "single element -> 0");
    // Heavily skewed weights: index 1 should win the vast majority of seeds.
    let ones = (0..200u64).filter(|&seed| weighted_index(&[1, 10_000], seed) == 1).count();
    assert!(ones > 180, "dominant weight wins most draws ({ones}/200)");
}

#[test]
fn splitmix64_known_values() {
    assert_eq!(splitmix64(0), 0xE220A8397B1DCDAF);
    assert_ne!(splitmix64(1), splitmix64(2));
}

#[test]
fn audit_slot_routes_to_newcomer_on_fifth() {
    let mut st = state();
    st.register(hb("veteran", &model("llama"), 4, 0));
    set_rep(&mut st, "veteran", 990_000); // non-newcomer, top rep
    st.register(hb("newbie", &model("llama"), 4, 0)); // default ledger -> newcomer
    for i in 1..=AUDIT_EVERY {
        let m = st.select_provider(&model("llama"), "c").unwrap();
        if i == AUDIT_EVERY {
            assert!(m.2, "every AUDIT_EVERY-th match is an audit/newcomer slot");
            assert_eq!(m.0, "newbie");
        } else {
            assert!(!m.2, "non-audit calls are not audit routes");
        }
    }
}

#[test]
fn select_providers_distinct_and_clamped() {
    let mut st = state();
    for p in ["a", "b", "c"] {
        st.register(hb(p, &model("llama"), 4, 0));
    }
    let got = st.select_providers(&model("llama"), "consumer", 5); // ask 5, only 3 exist
    assert_eq!(got.len(), 3);
    let ids: HashSet<_> = got.iter().map(|t| t.0.clone()).collect();
    assert_eq!(ids.len(), 3, "providers are distinct");
    assert_eq!(st.select_providers(&model("llama"), "consumer", 2).len(), 2);
}

// ---- ratio gate (the economy) ----
#[test]
fn consumer_allowed_grace_then_ratio_boundary() {
    let mut st = state();
    assert!(st.consumer_allowed("unknown")); // no ledger -> allowed
    let mk = |consumed: u64, served: u64| {
        let mut e = LedgerEntry::new("x".into(), now_ms());
        e.consumed = consumed;
        e.served = served;
        e
    };
    // within grace, terrible ratio -> allowed
    st.put_ledger_entry("g".into(), mk(NEWCOMER_GRACE_TOKENS - 1, 0));
    assert!(st.consumer_allowed("g"));
    // past grace, ratio < MIN -> blocked
    st.put_ledger_entry("b".into(), mk(NEWCOMER_GRACE_TOKENS + 100, 10));
    assert!(!st.consumer_allowed("b"));
    // past grace, ratio exactly MIN_RATIO (0.5) -> allowed (>=)
    st.put_ledger_entry("m".into(), mk(100_000, 50_000));
    assert!(st.consumer_allowed("m"));
    // past grace, healthy ratio -> allowed
    st.put_ledger_entry("h".into(), mk(100_000, 100_000));
    assert!(st.consumer_allowed("h"));
}

// ---- input validation (unauthenticated heartbeat hardening) ----
#[test]
fn validate_heartbeat_accept_and_reject_paths() {
    let real = peer_id(&generate_identity()).to_string();
    let mut good = hb(&real, &model("llama"), 4, 0);
    assert!(validate_heartbeat(&good).is_ok());

    assert!(validate_heartbeat(&hb("not-a-peer", &model("llama"), 4, 0)).is_err());
    assert!(validate_heartbeat(&hb("", &model("llama"), 4, 0)).is_err());

    let mut over = good.clone();
    over.multiaddrs = (0..20).map(|i| format!("/ip4/1.2.3.4/tcp/{i}")).collect();
    assert!(validate_heartbeat(&over).is_err()); // too many addrs

    good.capacity = MAX_CAPACITY + 1;
    assert!(validate_heartbeat(&good).is_err()); // capacity ceiling
    good.capacity = 4;

    good.offers = (0..(MAX_OFFERS + 1))
        .map(|i| ModelOffer {
            model: model(&format!("m{i}")),
            backend: "ollama".into(),
            caps: ModelCaps::default(),
            tokens_per_sec_milli: 0,
        })
        .collect();
    assert!(validate_heartbeat(&good).is_err()); // too many offers
}

// ---- job TTL sweep ----
#[test]
fn sweep_removes_only_expired_jobs() {
    let mut st = state();
    let job = |created: u64| Job {
        consumer: "c".into(),
        provider: "p".into(),
        model: model("llama"),
        audit: false,
        created,
    };
    st.put_job("fresh".into(), job(now_ms()));
    st.put_job("old".into(), job(now_ms().saturating_sub(JOB_TTL_MS + 1_000)));
    assert_eq!(st.sweep_jobs(JOB_TTL_MS), 1);
    assert!(st.has_job("fresh"));
    assert!(!st.has_job("old"));
}

#[test]
fn reputation_and_newcomer_status() {
    let mut st = state();
    assert_eq!(st.reputation_ppm("nobody"), 1_000_000);
    assert!(st.is_newcomer("nobody"));
    set_rep(&mut st, "vet", 420_000);
    assert_eq!(st.reputation_ppm("vet"), 420_000);
    assert!(!st.is_newcomer("vet"));
}

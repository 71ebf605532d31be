use p2ptokens::api::{MatchManyRequest, MatchManyResponse, MatchResponse, SettleRequest};
use p2ptokens::coordinator::{HeartbeatStatus, SettleError, State, MAX_FANOUT};
use p2ptokens::crypto::{export_pubkey, generate_identity, peer_id, public_key};
use p2ptokens::receipts::{sign_receipt, ReceiptBody, SignedReceipt};
use p2ptokens::types::{Heartbeat, LedgerEntry, MatchRequest, ModelCaps, ModelId, ModelOffer};

fn model(name: &str) -> ModelId {
    ModelId { name: name.into(), quant: None }
}

fn hb(peer: &str) -> Heartbeat {
    Heartbeat {
        peer_id: peer.into(),
        multiaddrs: vec!["/ip4/203.0.113.7/tcp/40833".into()],
        offers: vec![ModelOffer {
            model: model("llama"),
            backend: "ollama".into(),
            caps: ModelCaps::default(),
            tokens_per_sec_milli: 0,
        }],
        capacity: 4,
        in_flight: 0,
        pubkey: String::new(),
        sig: String::new(),
    }
}

fn body(hb: &Heartbeat) -> Vec<u8> {
    format!("{}|{}|{}", hb.peer_id, hb.capacity, hb.in_flight).into_bytes()
}

#[test]
fn heartbeats_must_be_signed_unless_load_testing() {
    let kp = generate_identity();
    let mut good = hb(&peer_id(&kp).to_string());
    let b = body(&good);
    p2ptokens::auth::sign_heartbeat(&kp, &mut good, &b).unwrap();

    let mut st = State::new(false, None);
    assert_eq!(st.accept_heartbeat(good.clone(), &body(&good)), HeartbeatStatus::Accepted);
    let unsigned = hb(&peer_id(&generate_identity()).to_string());
    assert_eq!(st.accept_heartbeat(unsigned.clone(), &body(&unsigned)), HeartbeatStatus::Unauthorized);
    assert_eq!(st.accept_heartbeat(hb("not-a-peer"), b"x"), HeartbeatStatus::BadRequest);

    let mut open = State::new(true, None);
    assert_eq!(open.accept_heartbeat(unsigned.clone(), &body(&unsigned)), HeartbeatStatus::Accepted);
    assert_eq!(open.live_providers().len(), 1);
}

/// A tracker with one registered provider and one consumer key.
fn tracker() -> (State, String, p2ptokens::crypto::Identity) {
    let mut st = State::new(true, None);
    let provider = peer_id(&generate_identity()).to_string();
    st.register(hb(&provider));
    (st, provider, generate_identity())
}

#[test]
fn a_job_settles_once_and_moves_the_tokens() {
    let (mut st, provider, consumer_kp) = tracker();
    let consumer = peer_id(&consumer_kp).to_string();
    let m = match st.match_one(&MatchRequest { consumer: consumer.clone(), model: model("llama"), require: ModelCaps::default(), exclude: vec![] }) {
        MatchResponse::Matched(m) => m,
        other => panic!("unexpected {other:?}"),
    };
    assert_eq!(m.provider, provider);
    let body = ReceiptBody {
        job_id: m.job_id.clone(),
        consumer: consumer.clone(),
        provider: provider.clone(),
        model: "llama".into(),
        seq: 2,
        cumulative_tokens: 120,
        ts: 0,
    };
    let sig = sign_receipt(&consumer_kp, &body).unwrap();
    let req = SettleRequest {
        receipt: SignedReceipt { body, consumer_sig: sig, provider_sig: None },
        consumer_pubkey: export_pubkey(&public_key(&consumer_kp)).unwrap(),
        completed: true,
    };

    let mut bad_key = req.clone();
    bad_key.consumer_pubkey = "@@@".into();
    assert_eq!(st.settle(&bad_key).unwrap_err(), SettleError::BadConsumerPubkey);

    let mut forged = req.clone();
    forged.receipt.body.cumulative_tokens = 1_000_000;
    let e = st.settle(&forged).unwrap_err();
    assert_eq!(e, SettleError::ReceiptRejected);
    assert_eq!(e.status(), 400);
    assert_eq!(e.message(), "receipt failed verification");

    let ok = st.settle(&req).unwrap();
    assert!(ok.accepted);
    assert_eq!(ok.provider_served_total, 120);
    assert_eq!(ok.consumer_consumed_total, 120);
    assert_eq!(st.ledger_entry(&provider).unwrap().served, 120);
    assert_eq!(st.ledger_entry(&consumer).unwrap().consumed, 120);

    // the same receipt again: the job is gone
    let again = st.settle(&req).unwrap_err();
    assert_eq!(again, SettleError::UnknownJob);
    assert_eq!(again.status(), 404);
}

#[test]
fn matching_is_refused_below_the_ratio() {
    let (mut st, _provider, _) = tracker();
    let mut e = LedgerEntry::new("leech".into(), 0);
    e.consumed = 1_000_000;
    e.served = 10;
    st.put_ledger_entry("leech".into(), e);
    let r = st.match_one(&MatchRequest { consumer: "leech".into(), model: model("llama"), require: ModelCaps::default(), exclude: vec![] });
    assert!(matches!(r, MatchResponse::RatioExceeded));
    let r = st.match_many(&MatchManyRequest { consumer: "leech".into(), model: model("llama"), count: 3 });
    assert!(matches!(r, MatchManyResponse::RatioExceeded));
    let r = st.match_one(&MatchRequest { consumer: "fresh".into(), model: model("mistral"), require: ModelCaps::default(), exclude: vec![] });
    assert!(matches!(r, MatchResponse::NoProvider));
}

#[test]
fn fan_out_opens_one_job_per_provider_and_is_clamped() {
    let mut st = State::new(true, None);
    for i in 0..8 {
        st.register(hb(&format!("p{i}")));
    }
    match st.match_many(&MatchManyRequest { consumer: "c".into(), model: model("llama"), count: 50 }) {
        MatchManyResponse::Matched { matches } => {
            assert_eq!(matches.len(), MAX_FANOUT);
            for m in &matches {
                assert!(st.has_job(&m.job_id));
            }
        }
        other => panic!("unexpected {other:?}"),
    }
    match st.match_many(&MatchManyRequest { consumer: "c".into(), model: model("llama"), count: 0 }) {
        MatchManyResponse::Matched { matches } => assert_eq!(matches.len(), 1),
        other => panic!("unexpected {other:?}"),
    }
}

#[test]
fn a_match_with_a_requirement_goes_to_a_capable_provider() {
    let mut st = State::new(true, None);
    let mut plain = hb("plain");
    plain.offers[0].tokens_per_sec_milli = 90_000;
    st.register(plain);
    let mut capable = hb("capable");
    capable.offers[0].caps = ModelCaps { tools: true, vision: false, reasoning: false };
    st.register(capable);
    let require = ModelCaps { tools: true, vision: false, reasoning: false };
    for _ in 0..20 {
        let req = MatchRequest { consumer: "c".into(), model: model("llama"), require, exclude: vec![] };
        match st.match_one(&req) {
            MatchResponse::Matched(m) => assert_eq!(m.provider, "capable"),
            other => panic!("unexpected {other:?}"),
        }
    }
}

use p2ptokens::api::{MatchManyRequest, MatchManyResponse, MatchResponse, SettleRequest};
use p2ptokens::auth::{sign_heartbeat, verify_heartbeat};
use p2ptokens::coordinator::{splitmix64, HeartbeatStatus, Job, SettleError, State};
use p2ptokens::crypto::{
    export_pubkey, export_secret, generate_identity, import_pubkey, import_secret, owns_peer,
    peer_id, public_key, sign, verify,
};
use p2ptokens::files::{extract_text, Extracted, FileData};
use p2ptokens::http::parse_model;
use p2ptokens::leecher::{dial_address, LeechAction, LeechRetry};
use p2ptokens::receipts::{sign_receipt, verify_receipt, ReceiptBody, SignedReceipt};
use p2ptokens::seeder::{check_consumer_key, judge_receipt, ReceiptVerdict, KEY_MISMATCH};
use p2ptokens::protocol::Wire;
use p2ptokens::types::{Heartbeat, MatchRequest, ModelCaps, ModelId, ModelOffer};

fn model(name: &str) -> ModelId {
    ModelId { name: name.into(), quant: None }
}

fn heartbeat(peer: &str) -> Heartbeat {
    Heartbeat {
        peer_id: peer.into(),
        multiaddrs: vec!["/ip4/198.51.100.4/tcp/4001".into()],
        offers: vec![ModelOffer {
            model: model("llama"),
            backend: "ollama".into(),
            caps: ModelCaps::default(),
            tokens_per_sec_milli: 0,
        }],
        capacity: 2,
        in_flight: 0,
        pubkey: String::new(),
        sig: String::new(),
    }
}

#[test]
fn a_signature_verifies_only_for_its_key_and_message() {
    let kp = generate_identity();
    let pk = public_key(&kp);
    let me = peer_id(&kp);
    let sig = sign(&kp, b"hello").unwrap();
    assert!(verify(&me, &pk, b"hello", &sig));
    assert!(!verify(&me, &pk, b"hellO", &sig));
    assert!(!verify(&me, &pk, b"hello", &[0u8; 64]));
    let other = generate_identity();
    assert!(!verify(&peer_id(&other), &pk, b"hello", &sig));
    assert!(!verify(&me, &public_key(&other), b"hello", &sig));
    assert!(owns_peer(&pk, &me));
    assert!(!owns_peer(&pk, &peer_id(&other)));
}

#[test]
fn keys_round_trip_through_their_text() {
    let kp = generate_identity();
    let back = import_secret(&export_secret(&kp).unwrap()).unwrap();
    assert_eq!(back.secret_bytes(), kp.secret_bytes());
    let sig = sign(&back, b"m").unwrap();
    assert_eq!(sig, sign(&kp, b"m").unwrap());
    let pk = public_key(&kp);
    let pk2 = import_pubkey(&export_pubkey(&pk).unwrap()).unwrap();
    assert_eq!(pk2.as_bytes(), pk.as_bytes());
    assert_eq!(pk.duplicate().as_bytes(), pk.as_bytes());
}

#[test]
fn forged_heartbeat_is_unauthorized() {
    let kp = generate_identity();
    let mut hb = heartbeat(&peer_id(&kp));
    sign_heartbeat(&kp, &mut hb, b"body").unwrap();
    assert!(verify_heartbeat(&hb, b"body"));
    assert!(!verify_heartbeat(&hb, b"other body"));
    let mut st = State::new(false, None);
    assert_eq!(st.accept_heartbeat(hb.clone(), b"other body"), HeartbeatStatus::Unauthorized);
    assert!(st.live_providers().is_empty());
    assert_eq!(st.accept_heartbeat(hb, b"body"), HeartbeatStatus::Accepted);
}

#[test]
fn consumer_key_must_hash_to_the_peer() {
    let kp = generate_identity();
    let text = export_pubkey(&public_key(&kp)).unwrap();
    let pk = check_consumer_key(&text, &peer_id(&kp)).unwrap();
    assert_eq!(pk.as_bytes(), public_key(&kp).as_bytes());
    assert_eq!(check_consumer_key(&text, "12D3KooWnotthepeer").unwrap_err(), KEY_MISMATCH);
}

#[test]
fn receipts_verify_only_when_signed_by_the_named_consumer() {
    let kp = generate_identity();
    let body = ReceiptBody {
        job_id: "j".into(),
        consumer: peer_id(&kp),
        provider: "p".into(),
        model: "llama".into(),
        seq: 1,
        cumulative_tokens: 16,
        ts: 5,
    };
    let sig = sign_receipt(&kp, &body).unwrap();
    assert!(verify_receipt(&body, &sig, &public_key(&kp)));
    let impostor = generate_identity();
    let forged = sign_receipt(&impostor, &body).unwrap();
    assert!(!verify_receipt(&body, &forged, &public_key(&impostor)));
    assert!(!verify_receipt(&body, &forged, &public_key(&kp)));
    let r = SignedReceipt { body, consumer_sig: forged, provider_sig: None };
    assert!(matches!(
        judge_receipt(Some(Wire::Receipt { receipt: r }), "j", &public_key(&kp), 16),
        ReceiptVerdict::Reject
    ));
}

#[test]
fn a_rejected_settlement_keeps_the_job() {
    let mut st = State::new(true, None);
    let provider = peer_id(&generate_identity());
    st.register(heartbeat(&provider));
    let consumer_kp = generate_identity();
    let consumer = peer_id(&consumer_kp);
    let m = match st.match_one(&MatchRequest {
        consumer: consumer.clone(),
        model: model("llama"),
        require: ModelCaps::default(),
        exclude: vec![],
    }) {
        MatchResponse::Matched(m) => m,
        other => panic!("unexpected {other:?}"),
    };
    let body = ReceiptBody {
        job_id: m.job_id.clone(),
        consumer,
        provider,
        model: "llama".into(),
        seq: 1,
        cumulative_tokens: 40,
        ts: 0,
    };
    let impostor = generate_identity();
    let req = SettleRequest {
        receipt: SignedReceipt {
            consumer_sig: sign_receipt(&impostor, &body).unwrap(),
            body,
            provider_sig: None,
        },
        consumer_pubkey: export_pubkey(&public_key(&consumer_kp)).unwrap(),
        completed: true,
    };
    assert_eq!(st.settle(&req).unwrap_err(), SettleError::ReceiptRejected);
    assert!(st.has_job(&m.job_id));
}

#[test]
fn state_accessors_edit_the_tables() {
    let mut st = State::new(true, None);
    let job = Job { consumer: "c".into(), provider: "p".into(), model: model("llama"), audit: false, created: 1 };
    assert!(!st.has_job("j1"));
    st.put_job("j1".into(), job);
    assert!(st.has_job("j1"));
    st.register(heartbeat("alice"));
    assert_eq!(st.indexed_peers("llama"), vec!["alice".to_string()]);
    st.set_last_seen("alice", 0);
    assert!(st.live_providers().is_empty());
    st.forget_provider("alice");
    assert_eq!(st.indexed_peers("llama"), vec!["alice".to_string()]);
    assert!(st.indexed_peers("mistral").is_empty());
}

#[test]
fn a_rematch_excludes_the_seeders_that_failed() {
    let mut retry = LeechRetry::new();
    let first = retry.match_request("me".into(), model("llama"), ModelCaps::default());
    assert!(first.exclude.is_empty());
    let a = retry.attempt_failed("seeder-a".into(), "dial failed".into(), false);
    assert!(matches!(a, LeechAction::Backoff { ms: 150 }));
    assert!(matches!(retry.next_attempt(), LeechAction::RequestMatch));
    let second = retry.match_request("me".into(), model("llama"), ModelCaps::default());
    assert_eq!(second.exclude, vec!["seeder-a".to_string()]);
    assert_eq!(second.consumer, "me");
}

#[test]
fn a_model_key_parses_back_to_the_model() {
    let m = ModelId { name: "llama3".into(), quant: Some("q4".into()) };
    let back = parse_model(&m.key());
    assert_eq!(back.name, "llama3");
    assert_eq!(back.quant.as_deref(), Some("q4"));
    let bare = parse_model(&model("mistral").key());
    assert_eq!(bare.name, "mistral");
    assert_eq!(bare.quant, None);
}

#[test]
fn splitmix64_separates_nearby_seeds() {
    let outs: Vec<u64> = (0..64u64).map(splitmix64).collect();
    for i in 0..outs.len() {
        for j in (i + 1)..outs.len() {
            assert_ne!(outs[i], outs[j]);
        }
    }
}

#[test]
fn text_files_are_read_and_pdfs_handed_back() {
    let txt = FileData { filename: "a.txt".into(), mime: "text/plain".into(), data: "aGVsbG8gIA==".into() };
    match extract_text(&txt).unwrap() {
        Extracted::Text(t) => assert_eq!(t, "hello"),
        other => panic!("unexpected {other:?}"),
    }
    let pdf = FileData { filename: "doc.PDF".into(), mime: String::new(), data: "JVBERg==".into() };
    match extract_text(&pdf).unwrap() {
        Extracted::Pdf(b) => assert_eq!(b, b"%PDF".to_vec()),
        other => panic!("unexpected {other:?}"),
    }
    let bad = FileData { filename: "x".into(), mime: String::new(), data: "!!".into() };
    assert_eq!(extract_text(&bad).unwrap_err(), "decode base64 attachment");
}

#[test]
fn dial_addresses_need_a_multiaddr_and_a_peer_id() {
    let provider = "12D3KooWQYhTNQdmr3ArTeUHRYzFg94BKyTkoWBDWez9kSCVe2Xo";
    let a = dial_address("/ip4/203.0.113.7/tcp/40833", provider).unwrap();
    assert_eq!(a, format!("/ip4/203.0.113.7/tcp/40833/p2p/{provider}"));
    assert_eq!(dial_address(&a, provider).unwrap(), a);
    assert!(dial_address("not an address", provider).is_none());
    assert!(dial_address("/ip4/203.0.113.7/tcp/40833", "nobody").is_none());
}

#[test]
fn a_relay_address_names_its_peer_and_circuit() {
    let relay = "12D3KooWDpJ7As7BWAwRMfu1VU2WCqNjvq387JEYKDBj4kx6nXTN";
    let addr = format!("/ip4/198.51.100.9/tcp/4001/p2p/{relay}");
    let (peer, circuit) = p2ptokens::node::relay_target(&addr).unwrap();
    assert_eq!(peer, relay);
    assert_eq!(circuit, format!("{addr}/p2p-circuit"));
    assert!(p2ptokens::node::relay_target("/ip4/198.51.100.9/tcp/4001").is_none());
    assert!(p2ptokens::node::relay_target("not an address").is_none());
}

#[test]
fn anthropic_requests_default_to_a_token_limit() {
    assert_eq!(p2ptokens::adapters::anthropic_max_tokens(None), 1024);
    assert_eq!(p2ptokens::adapters::anthropic_max_tokens(Some(77)), 77);
}

#[test]
fn fan_out_opens_a_job_per_provider_for_the_consumer() {
    let mut st = State::new(true, None);
    for p in ["p1", "p2", "p3"] {
        st.register(heartbeat(p));
    }
    let consumer_kp = generate_identity();
    let consumer = peer_id(&consumer_kp);
    match st.match_many(&MatchManyRequest { consumer: consumer.clone(), model: model("llama"), count: 3 }) {
        MatchManyResponse::Matched { matches } => {
            assert_eq!(matches.len(), 3);
            for m in &matches {
                assert!(st.has_job(&m.job_id));
                assert_eq!(m.job_id.len(), 36);
            }
            for m in &matches {
                let body = ReceiptBody {
                    job_id: m.job_id.clone(),
                    consumer: consumer.clone(),
                    provider: m.provider.clone(),
                    model: "llama".into(),
                    seq: 1,
                    cumulative_tokens: 10,
                    ts: 0,
                };
                let req = SettleRequest {
                    receipt: SignedReceipt {
                        consumer_sig: sign_receipt(&consumer_kp, &body).unwrap(),
                        body,
                        provider_sig: None,
                    },
                    consumer_pubkey: export_pubkey(&public_key(&consumer_kp)).unwrap(),
                    completed: true,
                };
                assert!(st.settle(&req).unwrap().accepted);
            }
        }
        other => panic!("unexpected {other:?}"),
    }
}

use p2ptokens::auth::{sign_heartbeat, verify_heartbeat};
use p2ptokens::crypto::{
    export_pubkey, export_secret, generate_identity, import_pubkey, import_secret, peer_id,
    public_key, CryptoError,
};
use p2ptokens::protocol::{encode_frame, frame_len, FrameError, MAX_FRAME};
use p2ptokens::receipts::{sign_receipt, verify_receipt, verify_settlement, ReceiptBody, SignedReceipt};
use p2ptokens::types::{Heartbeat, LedgerEntry, ModelCaps, ModelId, ModelOffer};

fn sample() -> Heartbeat {
    Heartbeat {
        peer_id: String::new(),
        multiaddrs: vec!["/ip4/1.2.3.4/tcp/4001".into()],
        offers: vec![ModelOffer {
            model: ModelId { name: "llama3.1:8b".into(), quant: Some("q4".into()) },
            backend: "ollama".into(),
            caps: ModelCaps::default(),
            tokens_per_sec_milli: 0,
        }],
        capacity: 4,
        in_flight: 0,
        pubkey: String::new(),
        sig: String::new(),
    }
}

/// The signed portion of a heartbeat, as these tests encode it.
fn body(hb: &Heartbeat) -> Vec<u8> {
    format!(
        "{}|{}|{}|{}|{}",
        hb.peer_id,
        hb.multiaddrs.join(","),
        hb.offers.iter().map(|o| o.model.key()).collect::<Vec<_>>().join(","),
        hb.capacity,
        hb.in_flight
    )
    .into_bytes()
}

#[test]
fn signed_heartbeat_verifies() {
    let kp = generate_identity();
    let mut hb = sample();
    hb.peer_id = peer_id(&kp).to_string();
    let b = body(&hb);
    sign_heartbeat(&kp, &mut hb, &b).unwrap();
    assert!(verify_heartbeat(&hb, &body(&hb)));
}

#[test]
fn tampered_body_fails() {
    let kp = generate_identity();
    let mut hb = sample();
    hb.peer_id = peer_id(&kp).to_string();
    let b = body(&hb);
    sign_heartbeat(&kp, &mut hb, &b).unwrap();
    hb.capacity = 9999; // change a signed field after signing
    assert!(!verify_heartbeat(&hb, &body(&hb)));
}

#[test]
fn wrong_identity_fails() {
    // sign with one key but claim a different peer_id -> rejected
    let signer = generate_identity();
    let victim = generate_identity();
    let mut hb = sample();
    hb.peer_id = peer_id(&victim).to_string();
    let b = body(&hb);
    sign_heartbeat(&signer, &mut hb, &b).unwrap();
    assert!(!verify_heartbeat(&hb, &body(&hb)));
}

#[test]
fn unsigned_heartbeat_fails() {
    let hb = sample();
    assert!(!verify_heartbeat(&hb, &body(&hb)));
}

fn signed(job: &str, provider: &str) -> (SignedReceipt, p2ptokens::crypto::PubKey, String) {
    let kp = generate_identity();
    let consumer = peer_id(&kp).to_string();
    let body = ReceiptBody {
        job_id: job.into(),
        consumer: consumer.clone(),
        provider: provider.into(),
        model: "llama".into(),
        seq: 3,
        cumulative_tokens: 120,
        ts: 0,
    };
    let sig = sign_receipt(&kp, &body).unwrap();
    let r = SignedReceipt { body, consumer_sig: sig, provider_sig: None };
    (r, public_key(&kp), consumer)
}

#[test]
fn valid_settlement_verifies() {
    let (r, pk, consumer) = signed("job1", "prov1");
    assert!(verify_settlement(&r, &pk, "job1", &consumer, "prov1"));
    assert!(verify_receipt(&r.body, &r.consumer_sig, &pk));
}

#[test]
fn tampered_token_count_fails() {
    let (mut r, pk, consumer) = signed("job1", "prov1");
    r.body.cumulative_tokens = 999_999; // change a signed field after signing
    assert!(!verify_settlement(&r, &pk, "job1", &consumer, "prov1"));
}

#[test]
fn mismatched_ids_fail() {
    let (r, pk, consumer) = signed("job1", "prov1");
    assert!(!verify_settlement(&r, &pk, "WRONG", &consumer, "prov1")); // job
    assert!(!verify_settlement(&r, &pk, "job1", "WRONG", "prov1")); // consumer
    assert!(!verify_settlement(&r, &pk, "job1", &consumer, "WRONG")); // provider
}

#[test]
fn wrong_pubkey_fails() {
    let (r, _pk, consumer) = signed("job1", "prov1");
    let other = public_key(&generate_identity()); // not the signer
    assert!(!verify_settlement(&r, &other, "job1", &consumer, "prov1"));
}

#[test]
fn garbage_signature_fails() {
    let (mut r, pk, consumer) = signed("job1", "prov1");
    r.consumer_sig = "not-base64!!".into();
    assert!(!verify_settlement(&r, &pk, "job1", &consumer, "prov1"));
}

#[test]
fn canonical_receipt_text() {
    let b = ReceiptBody {
        job_id: "j".into(),
        consumer: "c".into(),
        provider: "p".into(),
        model: "m".into(),
        seq: 1,
        cumulative_tokens: 20,
        ts: 300,
    };
    assert_eq!(b.canonical(), b"j\nc\np\nm\n1\n20\n300".to_vec());
}

#[test]
fn model_key_formats() {
    assert_eq!(ModelId { name: "llama".into(), quant: None }.key(), "llama");
    assert_eq!(ModelId { name: "llama".into(), quant: Some("q4".into()) }.key(), "llama@q4");
    // empty quant is treated as no quant
    assert_eq!(ModelId { name: "llama".into(), quant: Some(String::new()) }.key(), "llama");
}

#[test]
fn ledger_ratio_math() {
    let mut e = LedgerEntry::new("p".into(), 0);
    // nothing consumed yet: an unbounded ratio meets any bar
    assert!(e.ratio_at_least(1_000_000, 1));
    e.consumed = 100;
    e.served = 50;
    assert!(e.ratio_at_least(1, 2));
    assert!(!e.ratio_at_least(51, 100));
}

#[test]
fn caps_satisfaction() {
    let none = ModelCaps::default();
    let tools = ModelCaps { tools: true, ..Default::default() };
    assert!(tools.satisfies(&none));
    assert!(!none.satisfies(&tools));
    assert!(none.is_empty());
    assert!(!tools.is_empty());
}

#[test]
fn secret_key_roundtrip() {
    let kp = generate_identity();
    let s = export_secret(&kp).unwrap();
    let back = import_secret(&s).unwrap();
    assert_eq!(peer_id(&back).to_string(), peer_id(&kp).to_string());
    assert!(matches!(import_secret("not base64!"), Err(CryptoError::Base64)));
    assert!(matches!(import_secret("AAAA"), Err(CryptoError::Protobuf)));
}

#[test]
fn public_key_roundtrip() {
    let kp = generate_identity();
    let s = export_pubkey(&public_key(&kp)).unwrap();
    let pk = import_pubkey(&format!("  {s}\n")).unwrap();
    assert_eq!(export_pubkey(&pk).unwrap(), s);
    assert!(matches!(import_pubkey("%%%"), Err(CryptoError::Base64)));
}

#[test]
fn frames_carry_their_length() {
    let f = encode_frame(b"hello");
    assert_eq!(f, vec![0, 0, 0, 5, b'h', b'e', b'l', b'l', b'o']);
    assert_eq!(frame_len([0, 0, 0, 5]), Ok(5));
    assert_eq!(frame_len([0, 0x80, 0, 0]), Ok(MAX_FRAME)); // the limit itself is accepted
    assert_eq!(frame_len([0, 0x80, 0, 1]), Err(FrameError::TooLarge { len: 0x80_0001 }));
    assert_eq!(frame_len([1, 0, 0, 0]), Err(FrameError::TooLarge { len: 0x100_0000 }));
}

#[test]
fn exports_and_signatures_have_their_fixed_sizes() {
    let kp = generate_identity();
    // 36 protobuf bytes of public key, 68 of private key, 64 of signature
    assert_eq!(export_pubkey(&public_key(&kp)).unwrap().len(), 48);
    assert_eq!(export_secret(&kp).unwrap().len(), 92);
    let body = ReceiptBody {
        job_id: "j".into(),
        consumer: "c".into(),
        provider: "p".into(),
        model: "m".into(),
        seq: 0,
        cumulative_tokens: 0,
        ts: 0,
    };
    assert_eq!(sign_receipt(&kp, &body).unwrap().len(), 88);
    assert_eq!(p2ptokens::crypto::sign(&kp, b"x").unwrap().len(), 64);
}

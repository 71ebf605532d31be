use p2ptokens::crypto::{export_pubkey, generate_identity, peer_id, public_key};
use p2ptokens::node::DialBook;
use p2ptokens::protocol::Wire;
use p2ptokens::receipts::{sign_receipt, ReceiptBody, SignedReceipt};
use p2ptokens::seeder::{
    cap_output, check_consumer_key, expect_request, input_size_error, over_capacity,
    judge_receipt, settle_backoff_ms, ModelIndex, ModelServe, ProviderStream, ReceiptVerdict,
    EXPECTED_REQUEST, KEY_MISMATCH,
};
use p2ptokens::threads::{history_as_chat, ThreadRow};
use p2ptokens::types::{ChatCompletionParams, ChatMessage, CompletionDelta};

fn delta(text: &str, cum: u64, done: bool, finish: Option<&str>) -> CompletionDelta {
    CompletionDelta {
        text: text.into(),
        cumulative_tokens: cum,
        done,
        finish_reason: finish.map(|f| f.into()),
    }
}

#[test]
fn first_message_must_open_a_job() {
    let e = expect_request(Some(Wire::Error { message: "x".into() })).unwrap_err();
    assert_eq!(e, EXPECTED_REQUEST);
    assert!(expect_request(None).is_err());
    let ok = expect_request(Some(Wire::Request {
        job_id: "j".into(),
        model: "m".into(),
        consumer_pubkey: "k".into(),
        messages: vec![],
        params: ChatCompletionParams::default(),
    }))
    .unwrap();
    assert_eq!(ok.job_id, "j");
}

#[test]
fn consumer_must_own_its_key() {
    let kp = generate_identity();
    let pk = export_pubkey(&public_key(&kp)).unwrap();
    assert!(check_consumer_key(&pk, &peer_id(&kp)).is_ok());
    let other = generate_identity();
    assert_eq!(check_consumer_key(&pk, &peer_id(&other)).unwrap_err(), KEY_MISMATCH);
    assert_eq!(check_consumer_key("garbage", &peer_id(&kp)).unwrap_err(), KEY_MISMATCH);
}

#[test]
fn admission_limits() {
    assert!(input_size_error(10, 0).is_none());
    assert!(input_size_error(10, 10).is_none());
    assert_eq!(
        input_size_error(11, 10).unwrap(),
        "request too large: 11 bytes exceeds this peer's limit (10)"
    );
    let p = ChatCompletionParams { max_tokens: Some(5000), ..Default::default() };
    assert_eq!(cap_output(p.clone(), 0).max_tokens, Some(5000));
    assert_eq!(cap_output(p, 1000).max_tokens, Some(1000));
    assert_eq!(cap_output(ChatCompletionParams::default(), 1000).max_tokens, Some(1000));
    assert!(!over_capacity(0, 100));
    assert!(!over_capacity(4, 3));
    assert!(over_capacity(4, 4));
}

#[test]
fn model_index_first_route_wins() {
    let mut idx = ModelIndex::new();
    idx.add("llama".into(), ModelServe { adapter: 0, name: "llama".into() });
    idx.add("llama".into(), ModelServe { adapter: 1, name: "other".into() });
    assert_eq!(idx.get("llama").unwrap().adapter, 0);
    assert!(idx.get("mistral").is_none());
    assert_eq!(idx.find("mistral").unwrap_err(), "model not served: mistral");
}

#[test]
fn output_is_chunked_every_sixteen_tokens() {
    let mut s = ProviderStream::new();
    assert!(s.on_delta(delta("a", 5, false, None)).is_none());
    assert!(s.on_delta(delta("b", 10, false, None)).is_none());
    match s.on_delta(delta("c", 16, false, None)) {
        Some(Wire::Chunk { seq, text, cumulative_tokens }) => {
            assert_eq!((seq, text.as_str(), cumulative_tokens), (1, "abc", 16));
        }
        other => panic!("unexpected {other:?}"),
    }
    assert!(s.on_receipt(Some(receipt(16))));
    assert_eq!(s.last_acked, 16);
    assert!(s.on_delta(delta("d", 20, false, None)).is_none());
    match s.on_delta(delta("", 20, true, Some("length"))) {
        Some(Wire::Chunk { seq, text, .. }) => assert_eq!((seq, text.as_str()), (2, "d")),
        other => panic!("unexpected {other:?}"),
    }
    match s.done_message() {
        Wire::Done { finish_reason, cumulative_tokens } => {
            assert_eq!((finish_reason.as_str(), cumulative_tokens), ("length", 20));
        }
        other => panic!("unexpected {other:?}"),
    }
    assert!(!s.on_receipt(None));
    let settle = s.settlement("pk".into()).unwrap();
    assert!(settle.completed);
    assert_eq!(settle.receipt.body.cumulative_tokens, 16);
}

#[test]
fn done_with_nothing_pending_still_flushes_once() {
    let mut s = ProviderStream::new();
    assert!(matches!(s.on_delta(delta("", 0, true, None)), Some(Wire::Chunk { seq: 1, .. })));
    assert!(ProviderStream::new().settlement("pk".into()).is_none());
}

fn receipt(cum: u64) -> SignedReceipt {
    SignedReceipt {
        body: ReceiptBody {
            job_id: "j".into(),
            consumer: "c".into(),
            provider: "p".into(),
            model: "m".into(),
            seq: 1,
            cumulative_tokens: cum,
            ts: 0,
        },
        consumer_sig: String::new(),
        provider_sig: None,
    }
}

#[test]
fn receipts_are_judged() {
    let kp = generate_identity();
    let pk = public_key(&kp);
    let mut body = receipt(20).body;
    body.consumer = peer_id(&kp).to_string();
    let sig = sign_receipt(&kp, &body).unwrap();
    let good = SignedReceipt { body, consumer_sig: sig, provider_sig: None };
    assert!(matches!(
        judge_receipt(Some(Wire::Receipt { receipt: good.clone() }), "j", &pk, 16),
        ReceiptVerdict::Accept(_)
    ));
    assert!(matches!(
        judge_receipt(Some(Wire::Receipt { receipt: good.clone() }), "j", &pk, 30),
        ReceiptVerdict::Wait
    ));
    assert!(matches!(
        judge_receipt(Some(Wire::Receipt { receipt: good.clone() }), "other", &pk, 16),
        ReceiptVerdict::Reject
    ));
    let mut forged = good.clone();
    forged.body.cumulative_tokens = 1000;
    assert!(matches!(
        judge_receipt(Some(Wire::Receipt { receipt: forged }), "j", &pk, 16),
        ReceiptVerdict::Reject
    ));
    assert!(matches!(judge_receipt(Some(Wire::Error { message: "x".into() }), "j", &pk, 1), ReceiptVerdict::Wait));
    assert!(matches!(judge_receipt(None, "j", &pk, 1), ReceiptVerdict::Reject));
    assert_eq!(settle_backoff_ms(2), 600);
}

#[test]
fn dial_waiters_are_settled_per_peer() {
    let mut book = DialBook::new(Some("relay".into()));
    book.wait("a".into(), 1);
    book.wait("b".into(), 2);
    book.wait("a".into(), 3);
    assert_eq!(book.settle("a"), vec![1, 3]);
    assert_eq!(book.settle("a"), Vec::<u64>::new());
    assert_eq!(book.waiting.len(), 1);
    assert!(!book.reserve_on_connect("b"));
    assert!(book.reserve_on_connect("relay"));
    assert!(!book.reserve_on_connect("relay")); // only once
}

#[test]
fn history_keeps_user_and_assistant_turns() {
    let m = |r: &str| ChatMessage { role: r.into(), content: r.to_uppercase() };
    let h = history_as_chat(&vec![m("system"), m("user"), m("tool"), m("assistant")]);
    assert_eq!(h.len(), 2);
    assert_eq!(h[0].role, "user");
    assert_eq!(h[1].content, "ASSISTANT");
    let row = ThreadRow { id: "t".into(), title: String::new(), created: 1, updated: 2 };
    assert_eq!(row.updated - row.created, 1);
}

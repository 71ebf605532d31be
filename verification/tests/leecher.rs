use p2ptokens::api::MatchResponse;
use p2ptokens::leecher::{
    ensure_peer, fanout_outcome, fans_out, final_item, majority, CompletionResult, ConsumerAction,
    Fanout, LeechAction, LeechRetry, RaceState, StreamAccount, StreamItem, ALL_FAILED,
    ATTEMPTS_EXHAUSTED, MAX_MATCH_ATTEMPTS, NO_ALTERNATIVE, NO_PROVIDER, RACE_LOST, RATE_LIMITED,
};
use p2ptokens::protocol::Wire;
use p2ptokens::types::{Match, ModelId};

fn cr(text: &str, provider: &str) -> CompletionResult {
    CompletionResult {
        text: text.into(),
        cumulative_tokens: 0,
        finish_reason: "stop".into(),
        provider: provider.into(),
    }
}

fn a_match(provider: &str) -> Match {
    Match {
        job_id: "job".into(),
        provider: provider.into(),
        multiaddrs: vec![],
        model: ModelId { name: "llama".into(), quant: None },
        audit: false,
    }
}

#[test]
fn majority_picks_the_most_common_answer() {
    // two peers say "42", one says "41" -> "42" wins with agreement 2
    let (winner, agree) = majority(vec![cr("41", "a"), cr("42", "b"), cr("42", "c")]);
    assert_eq!(winner.text, "42");
    assert_eq!(agree, 2);
}

#[test]
fn majority_all_disagree_returns_first() {
    let (winner, agree) = majority(vec![cr("x", "a"), cr("y", "b")]);
    assert_eq!(winner.text, "x");
    assert_eq!(agree, 1);
}

#[test]
fn majority_tie_goes_to_the_first_of_the_tied_answers() {
    let (winner, agree) = majority(vec![cr("b", "1"), cr("a", "2"), cr("a", "3"), cr("b", "4")]);
    assert_eq!(winner.text, "b");
    assert_eq!(winner.provider, "1");
    assert_eq!(agree, 2);
}

#[test]
fn fanout_parse_accepts_aliases_in_any_case() {
    assert!(Fanout::parse("") == Some(Fanout::Single));
    assert!(Fanout::parse("  OFF ") == Some(Fanout::Single));
    assert!(Fanout::parse("Race") == Some(Fanout::Racing));
    assert!(Fanout::parse("fastest") == Some(Fanout::Racing));
    assert!(Fanout::parse("VOTE") == Some(Fanout::Quorum));
    assert!(Fanout::parse("redundant") == Some(Fanout::Quorum));
    assert!(Fanout::parse("moa") == Some(Fanout::Ensemble));
    assert!(Fanout::parse(" all") == Some(Fanout::Ensemble));
    assert!(Fanout::parse("sideways") == None);
}

#[test]
fn fans_out_only_beyond_one_provider() {
    assert!(!fans_out(Fanout::Single, 5));
    assert!(!fans_out(Fanout::Quorum, 1));
    assert!(fans_out(Fanout::Racing, 2));
}

#[test]
fn fanout_outcome_per_mode() {
    let err = fanout_outcome(Fanout::Quorum, vec![]).unwrap_err();
    assert_eq!(err, ALL_FAILED);

    let r = fanout_outcome(Fanout::Racing, vec![cr("first", "a"), cr("second", "b")]).unwrap();
    assert_eq!(r.mode, "racing");
    assert_eq!(r.choices.len(), 1);
    assert_eq!(r.choices[0].text, "first");
    assert_eq!(r.responded, 1);
    assert!(r.agreement.is_none());

    let e = fanout_outcome(Fanout::Ensemble, vec![cr("x", "a"), cr("y", "b")]).unwrap();
    assert_eq!(e.mode, "ensemble");
    assert_eq!(e.choices.len(), 2);
    assert_eq!(e.responded, 2);

    let q = fanout_outcome(Fanout::Quorum, vec![cr("41", "a"), cr("42", "b"), cr("42", "c")])
        .unwrap();
    assert_eq!(q.mode, "quorum");
    assert_eq!(q.choices[0].text, "42");
    assert_eq!(q.agreement, Some(2));
    assert_eq!(q.responded, 3);
}

#[test]
fn retry_backs_off_and_gives_up_after_the_attempt_limit() {
    let mut st = LeechRetry::new();
    match st.match_unavailable("coordinator down".into()) {
        LeechAction::Backoff { ms } => assert_eq!(ms, 200),
        other => panic!("unexpected {other:?}"),
    }
    assert!(matches!(st.next_attempt(), LeechAction::RequestMatch));
    match st.attempt_failed("a".into(), "dial timed out".into(), false) {
        LeechAction::Backoff { ms } => assert_eq!(ms, 300),
        other => panic!("unexpected {other:?}"),
    }
    assert_eq!(st.tried, vec!["a".to_string()]);
    assert!(matches!(st.next_attempt(), LeechAction::RequestMatch));
    assert!(matches!(st.match_unavailable("again".into()), LeechAction::Backoff { ms: 600 }));
    match st.next_attempt() {
        LeechAction::Fail(e) => assert_eq!(e, "again"),
        other => panic!("unexpected {other:?}"),
    }
    assert_eq!(st.attempt, MAX_MATCH_ATTEMPTS);
}

#[test]
fn retry_without_any_error_reports_exhaustion() {
    let mut st = LeechRetry::new();
    st.next_attempt();
    st.next_attempt();
    match st.next_attempt() {
        LeechAction::Fail(e) => assert_eq!(e, ATTEMPTS_EXHAUSTED),
        other => panic!("unexpected {other:?}"),
    }
}

#[test]
fn no_failover_once_tokens_were_delivered() {
    let mut st = LeechRetry::new();
    match st.attempt_failed("a".into(), "stream broke".into(), true) {
        LeechAction::Fail(e) => assert_eq!(e, "stream broke"),
        other => panic!("unexpected {other:?}"),
    }
    assert!(st.tried.is_empty());
}

#[test]
fn match_answers_map_to_actions() {
    let st = LeechRetry::new();
    match st.matched(MatchResponse::NoProvider) {
        LeechAction::Fail(e) => assert_eq!(e, NO_PROVIDER),
        other => panic!("unexpected {other:?}"),
    }
    match st.matched(MatchResponse::RatioExceeded) {
        LeechAction::Fail(e) => assert_eq!(e, RATE_LIMITED),
        other => panic!("unexpected {other:?}"),
    }
    match st.matched(MatchResponse::Matched(a_match("alice"))) {
        LeechAction::Dial(m) => assert_eq!(m.provider, "alice"),
        other => panic!("unexpected {other:?}"),
    }
    let mut st2 = LeechRetry::new();
    st2.tried.push("a".into());
    match st2.matched(MatchResponse::NoProvider) {
        LeechAction::Fail(e) => assert_eq!(e, NO_ALTERNATIVE),
        other => panic!("unexpected {other:?}"),
    }
}

#[test]
fn consumer_stream_accumulates_chunks_and_finishes() {
    let mut acc = StreamAccount::new();
    assert_eq!(acc.budget_secs(), 90);
    let a = acc.on_message(Some(Wire::Chunk { seq: 1, text: "Hel".into(), cumulative_tokens: 1 }));
    match a {
        ConsumerAction::Acknowledge { seq, delta, cumulative_tokens } => {
            assert_eq!((seq, delta.as_str(), cumulative_tokens), (1, "Hel", 1));
        }
        other => panic!("unexpected {other:?}"),
    }
    acc.on_message(Some(Wire::Chunk { seq: 2, text: "lo".into(), cumulative_tokens: 2 }));
    assert!(acc.got_first);
    assert!(matches!(
        acc.on_message(Some(Wire::Error { message: "boom".into() })),
        ConsumerAction::Fail(ref e) if e == "provider error: boom"
    ));
    assert!(matches!(
        acc.on_message(Some(Wire::Done { finish_reason: "length".into(), cumulative_tokens: 1 })),
        ConsumerAction::Finish
    ));
    assert_eq!(acc.timed_out(), "seeder timed out after 90s");
    let r = acc.finish("prov".into());
    assert_eq!(r.text, "Hello");
    // the larger of the reported counts is kept
    assert_eq!(r.cumulative_tokens, 2);
    assert_eq!(r.finish_reason, "length");
    assert_eq!(r.provider, "prov");
}

#[test]
fn consumer_stream_end_without_done_keeps_stop() {
    let mut acc = StreamAccount::new();
    assert!(matches!(acc.on_message(None), ConsumerAction::Finish));
    let r = acc.finish("p".into());
    assert_eq!(r.finish_reason, "stop");
    assert_eq!(r.text, "");
}

#[test]
fn race_forwards_only_the_first_token_producer() {
    let mut race = RaceState::new();
    assert!(race.on_token(2));
    assert!(!race.on_token(0));
    assert!(race.on_token(2));
    assert_eq!(race.winner, Some(2));
    assert!(race.on_finished(0, Err("lost".into())).is_none());
    match race.on_finished(2, Ok(cr("t", "p"))) {
        Some(StreamItem::Done { finish_reason }) => assert_eq!(finish_reason, "stop"),
        other => panic!("unexpected {other:?}"),
    }
    assert!(race.on_drained().is_none());
    match RaceState::new().on_drained() {
        Some(StreamItem::Error(e)) => assert_eq!(e, RACE_LOST),
        other => panic!("unexpected {other:?}"),
    }
}

#[test]
fn final_item_maps_results() {
    assert!(matches!(final_item(Err("x".into())), StreamItem::Error(ref e) if e == "x"));
    assert!(matches!(final_item(Ok(cr("a", "b"))), StreamItem::Done { .. }));
}

// A bare address + provider id must round-trip back to the canonical dialable
// form, for both direct and relayed addresses, and be idempotent.
#[test]
fn ensure_peer_roundtrips_and_is_idempotent() {
    let provider = "12D3KooWQYhTNQdmr3ArTeUHRYzFg94BKyTkoWBDWez9kSCVe2Xo";
    let relay = "12D3KooWDpJ7As7BWAwRMfu1VU2WCqNjvq387JEYKDBj4kx6nXTN";

    let direct = "/ip4/203.0.113.7/tcp/40833".to_string();
    let relayed = format!("/ip4/198.51.100.9/tcp/4001/p2p/{relay}/p2p-circuit");

    for bare in [direct, relayed] {
        let once = ensure_peer(&bare, provider);
        // trailing component is the provider id
        assert!(once.ends_with(&format!("/p2p/{provider}")));
        // idempotent: re-attaching does not duplicate
        assert_eq!(once, ensure_peer(&once, provider));
        // the relay id (if any) is preserved, not clobbered
        assert!(once.starts_with(&bare));
    }
}

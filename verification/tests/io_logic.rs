use p2ptokens::adapters::{
    base_url, estimate_tokens, is_done_marker, line_text, split_system, sse_data, AdapterStep,
    BackendKind, AnthropicEvent, CompatChunk, LineBuffer, OllamaChunk, StreamMeter, ANTHROPIC_URL,
};
use p2ptokens::files::{as_prompt_block, decode_data, is_pdf, parse_data_uri, plain_text, FileData};
use p2ptokens::http::{parse_model, plan_chat, split_model_prefix, usage_tokens, Route};
use p2ptokens::leecher::{CompletionResult, Fanout};
use p2ptokens::types::ChatMessage;

fn msg(role: &str, content: &str) -> ChatMessage {
    ChatMessage { role: role.into(), content: content.into() }
}

#[test]
fn token_estimate_is_a_quarter_of_the_characters_at_least_one() {
    assert_eq!(estimate_tokens(""), 1);
    assert_eq!(estimate_tokens("abc"), 1);
    assert_eq!(estimate_tokens("abcdefgh"), 2);
    assert_eq!(estimate_tokens("ééééé"), 1); // characters, not bytes
}

#[test]
fn system_messages_are_split_out() {
    let msgs = vec![msg("system", "be brief"), msg("user", "hi"), msg("system", "no emoji")];
    let (system, rest) = split_system(&msgs);
    assert_eq!(system, "be brief\nno emoji");
    assert_eq!(rest.len(), 1);
    assert_eq!(rest[0].content, "hi");
    let one = [msg("user", "x")];
    let (none, all) = split_system(&one);
    assert_eq!(none, "");
    assert_eq!(all.len(), 1);
}

#[test]
fn lines_are_cut_at_newlines() {
    let mut b = LineBuffer::new();
    b.extend(b"data: one\nda");
    assert_eq!(b.next_line(), Some(b"data: one".to_vec()));
    assert_eq!(b.next_line(), None);
    b.extend(b"ta: two\n\n");
    assert_eq!(b.next_line(), Some(b"data: two".to_vec()));
    assert_eq!(b.next_line(), Some(Vec::new()));
    assert_eq!(b.next_line(), None);
    assert!(b.buf.is_empty());
}

#[test]
fn sse_payloads() {
    assert_eq!(line_text(b"  data: {\"a\":1} \r"), "data: {\"a\":1}");
    assert_eq!(sse_data(" data:  [DONE] ").as_deref(), Some("[DONE]"));
    assert_eq!(sse_data("event: ping"), None);
    assert!(is_done_marker("[DONE]"));
    assert!(!is_done_marker("[done]"));
}

#[test]
fn anthropic_events_are_metered() {
    let mut m = StreamMeter::new();
    let ev = |kind: &str, text: Option<&str>, stop: Option<&str>, out: Option<u64>| AnthropicEvent {
        kind: kind.into(),
        text: text.map(|t| t.into()),
        stop_reason: stop.map(|t| t.into()),
        output_tokens: out,
    };
    match m.anthropic_event(ev("content_block_delta", Some("Hello world!"), None, None)) {
        AdapterStep::Send(d) => {
            assert_eq!(d.text, "Hello world!");
            assert_eq!(d.cumulative_tokens, 3);
            assert!(!d.done);
        }
        other => panic!("unexpected {other:?}"),
    }
    assert!(matches!(m.anthropic_event(ev("content_block_delta", Some(""), None, None)), AdapterStep::Skip));
    assert!(matches!(m.anthropic_event(ev("ping", None, None, None)), AdapterStep::Skip));
    assert!(matches!(
        m.anthropic_event(ev("message_delta", None, Some("end_turn"), Some(7))),
        AdapterStep::Skip
    ));
    match m.anthropic_event(ev("message_stop", None, None, None)) {
        AdapterStep::Finish(d) => {
            assert!(d.done);
            assert_eq!(d.cumulative_tokens, 7);
            assert_eq!(d.finish_reason.as_deref(), Some("end_turn"));
            assert_eq!(d.text, "");
        }
        other => panic!("unexpected {other:?}"),
    }
}

#[test]
fn compat_chunks_are_metered() {
    let mut m = StreamMeter::new();
    let step = m.compat_chunk(CompatChunk {
        content: Some("abcdefgh".into()),
        finish_reason: None,
        completion_tokens: None,
    });
    assert!(matches!(step, AdapterStep::Send(ref d) if d.cumulative_tokens == 2));
    // a reported usage below the estimate is raised to it
    let step = m.compat_chunk(CompatChunk {
        content: Some("ijkl".into()),
        finish_reason: Some("stop".into()),
        completion_tokens: Some(1),
    });
    assert!(matches!(step, AdapterStep::Send(ref d) if d.cumulative_tokens == 3));
    let d = m.done_delta();
    assert_eq!(d.cumulative_tokens, 3);
    assert_eq!(d.finish_reason.as_deref(), Some("stop"));
}

#[test]
fn ollama_chunks_are_metered() {
    let mut m = StreamMeter::new();
    let (a, b) = m.ollama_chunk(OllamaChunk {
        content: "abcdefgh".into(),
        done: false,
        done_reason: None,
        eval_count: None,
    });
    assert_eq!(a.unwrap().cumulative_tokens, 2);
    assert!(b.is_none());
    let (a, b) = m.ollama_chunk(OllamaChunk {
        content: String::new(),
        done: true,
        done_reason: None,
        eval_count: Some(9),
    });
    assert!(a.is_none());
    let last = b.unwrap();
    assert!(last.done);
    assert_eq!(last.cumulative_tokens, 9);
    assert_eq!(last.finish_reason.as_deref(), Some("stop"));
}

#[test]
fn base_urls_lose_trailing_slashes() {
    assert_eq!(base_url(Some("http://h:1/v1//".into()), ANTHROPIC_URL), "http://h:1/v1");
    assert_eq!(base_url(None, ANTHROPIC_URL), "https://api.anthropic.com/v1");
    assert_eq!(BackendKind::Compat.backend(), "endpoint");
    assert_eq!(BackendKind::Anthropic.backend(), "anthropic");
}

#[test]
fn decodes_data_uri_and_bare_base64() {
    // "hello" base64 = aGVsbG8=
    let via_uri = decode_data("data:text/plain;base64,aGVsbG8=").unwrap();
    assert_eq!(via_uri, b"hello");
    let via_bare = decode_data("aGVsbG8=").unwrap();
    assert_eq!(via_bare, b"hello");
    assert_eq!(decode_data("data:!!!").unwrap_err(), "decode base64 attachment");
}

#[test]
fn extracts_plain_text_file() {
    let f = FileData {
        filename: "notes.txt".into(),
        mime: "text/plain".into(),
        data: "data:text/plain;base64,aGVsbG8=".into(),
    };
    assert!(!is_pdf(&f));
    let bytes = decode_data(&f.data).unwrap();
    let text = plain_text(&bytes);
    assert_eq!(text, "hello");
    assert_eq!(as_prompt_block(&f, Ok(text)), "[file: notes.txt]\nhello");
}

#[test]
fn detects_pdf_by_mime_and_name() {
    let by_mime = FileData { filename: "x".into(), mime: "application/pdf".into(), data: String::new() };
    assert!(is_pdf(&by_mime));
    let by_name = FileData { filename: "report.PDF".into(), mime: String::new(), data: String::new() };
    assert!(is_pdf(&by_name));
}

#[test]
fn prompt_blocks_for_empty_and_failed_files() {
    let f = FileData { filename: String::new(), mime: String::new(), data: String::new() };
    assert_eq!(as_prompt_block(&f, Ok(String::new())), "[file: attachment \u{2014} empty or no extractable text]");
    assert_eq!(as_prompt_block(&f, Err("bad".into())), "[file: attachment \u{2014} could not read: bad]");
}

#[test]
fn data_uris_split_into_mime_and_payload() {
    let (mime, data) = parse_data_uri("data:image/png;base64,QUJD");
    assert_eq!((mime.as_str(), data.as_str()), ("image/png", "QUJD"));
    let (mime, data) = parse_data_uri("data:,plain");
    assert_eq!((mime.as_str(), data.as_str()), ("", "plain"));
    let (mime, data) = parse_data_uri("https://example.com/a.png");
    assert_eq!((mime.as_str(), data.as_str()), ("", "https://example.com/a.png"));
}

#[test]
fn model_names_and_prefixes() {
    let m = parse_model("llama@q4");
    assert_eq!(m.name, "llama");
    assert_eq!(m.quant.as_deref(), Some("q4"));
    let m = parse_model("a@b@c");
    assert_eq!((m.name.as_str(), m.quant.as_deref()), ("a", Some("b@c")));
    assert!(parse_model("llama").quant.is_none());
    let (mode, rest) = split_model_prefix("racing: llama3");
    assert!(mode == Some(Fanout::Racing));
    assert_eq!(rest, "llama3");
    let (mode, rest) = split_model_prefix("moa:x");
    assert!(mode == Some(Fanout::Ensemble));
    assert_eq!(rest, "x");
    let (mode, rest) = split_model_prefix("llama3");
    assert!(mode.is_none());
    assert_eq!(rest, "llama3");
}

#[test]
fn chat_plans() {
    let p = plan_chat("quorum:llama@q4", None, None, Some(true));
    assert!(p.mode == Fanout::Quorum);
    assert_eq!(p.count, 3);
    assert!(p.route == Route::FanOut);
    assert_eq!(p.model_name, "llama@q4");
    assert_eq!(p.model.quant.as_deref(), Some("q4"));
    // the explicit field wins over the prefix
    let p = plan_chat("race:llama", Some("single"), Some(5), Some(true));
    assert!(p.mode == Fanout::Single);
    assert!(p.route == Route::Stream);
    assert_eq!(p.count, 5);
    let p = plan_chat("llama", Some("bogus"), None, None);
    assert!(p.route == Route::Single);
}

#[test]
fn usage_sums_choice_tokens() {
    let c = |n: u64| CompletionResult {
        text: String::new(),
        cumulative_tokens: n,
        finish_reason: "stop".into(),
        provider: "p".into(),
    };
    assert_eq!(usage_tokens(&vec![c(3), c(4)]), 7);
    assert_eq!(usage_tokens(&vec![]), 0);
}

#[test]
fn model_list_is_sorted_and_unique() {
    let keys: Vec<String> = vec!["llama@q4".into(), "gpt".into(), "llama@q4".into(), "Zeta".into(), "gp".into()];
    assert_eq!(p2ptokens::http::model_list(&keys), vec!["Zeta", "gp", "gpt", "llama@q4"]);
    assert!(p2ptokens::http::model_list(&vec![]).is_empty());
    assert!(p2ptokens::http::total_tokens_fit(&vec![]));
}

use p2ptokens::files::parse_data_uri;
use p2ptokens::leecher::Fanout;
use p2ptokens::receipts::ReceiptBody;

#[test]
fn fanout_parse_ignores_case_and_padding() {
    for s in ["  RACE ", "Quorum", "\tmoa\n", "", "Single", "nonsense "] {
        let normal = s.trim().to_ascii_lowercase();
        assert_eq!(Fanout::parse(s), Fanout::parse(&normal));
    }
    assert_eq!(Fanout::parse("  RACE "), Some(Fanout::Racing));
    assert_eq!(Fanout::parse(" nonsense"), None);
}

#[test]
fn data_uris_parse_back_into_their_parts() {
    for (mime, payload) in [("image/png", "iVBORw0KGgo="), ("", "aGk="), ("text/plain;charset=utf-8", "")] {
        let uri = format!("data:{mime};base64,{payload}");
        assert_eq!(parse_data_uri(&uri), (mime.to_string(), payload.to_string()));
    }
}

#[test]
fn changing_a_signed_field_changes_the_canonical_bytes() {
    let base = ReceiptBody {
        job_id: "job".into(),
        consumer: "c".into(),
        provider: "p".into(),
        model: "llama".into(),
        seq: 3,
        cumulative_tokens: 48,
        ts: 1_700_000_000_000,
    };
    let mut more = base.clone();
    more.cumulative_tokens = 49;
    assert_ne!(base.canonical(), more.canonical());
    let mut later = base.clone();
    later.ts += 1;
    assert_ne!(base.canonical(), later.canonical());
    assert_eq!(base.canonical(), base.clone().canonical());
}

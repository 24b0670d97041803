use serde_json::Value;
use slack_history::emit::piece;
use slack_history::emit::Emitter;
use slack_history::export::is_recorded;
use slack_history::export::leads_on;
use slack_history::export::replay;
use slack_history::response::ExportError;
use slack_history::response::MessageChunk;
use slack_history::response::Response;
use slack_history::response::ResponseMetadata;
use slack_history::slack::Configuration;
use slack_history::slack::Pull;
use slack_history::slack::Request;
use slack_history::slack::Slack;
use slack_history::slack::CONVERSATION_HISTORY_ENDPOINT;
use slack_history::slack::RESPONSE_MESSAGE_LIMIT;

fn value(text: &str) -> Value {
    serde_json::from_str(text).unwrap()
}

fn values(texts: &[&str]) -> Vec<Value> {
    texts.iter().map(|text| value(text)).collect()
}

fn page(texts: &[&str], cursor: Option<&str>) -> Response {
    Response {
        ok: true,
        messages: values(texts),
        has_more: cursor.is_some(),
        response_metadata: cursor.map(|text| ResponseMetadata { next_cursor: text.to_string() }),
        error: None,
    }
}

fn refusal(error: Option<&str>) -> Response {
    Response {
        ok: false,
        messages: Vec::new(),
        has_more: false,
        response_metadata: None,
        error: error.map(|text| text.to_string()),
    }
}

fn client() -> Slack {
    Slack::from(Configuration { api_token: "xoxb-token".to_string(), channel: "C123".to_string() })
}

fn pair(name: &str, text: &str) -> (String, String) {
    (name.to_string(), text.to_string())
}

fn output_of(pages: Vec<Response>) -> Vec<u8> {
    assert!(is_recorded(&pages));
    match replay(&client(), pages) {
        Ok(transcript) => transcript.output,
        Err(error) => panic!("{}", error.message()),
    }
}

fn error_of(pages: Vec<Response>) -> ExportError {
    assert!(is_recorded(&pages));
    match replay(&client(), pages) {
        Ok(_) => panic!("the run should fail"),
        Err(error) => error,
    }
}

fn check_request(request: &Request, cursor: Option<&str>) {
    assert_eq!(request.endpoint, "https://slack.com/api/conversations.history");
    assert_eq!(request.bearer_token, "xoxb-token");
    let mut expected = vec![pair("channel", "C123"), pair("limit", "1000")];
    if let Some(text) = cursor {
        expected.push(pair("cursor", text));
    }
    assert_eq!(request.query, expected);
}

#[test]
fn three_pages_give_one_array_and_three_requests() {
    let pages = vec![
        page(&["{\"text\":\"m1\"}", "{\"text\":\"m2\"}"], Some("c1")),
        page(&["{\"text\":\"m3\"}"], Some("c2")),
        page(&[], None),
    ];
    assert!(is_recorded(&pages));
    let transcript = match replay(&client(), pages) {
        Ok(transcript) => transcript,
        Err(error) => panic!("{}", error.message()),
    };
    assert_eq!(
        String::from_utf8(transcript.output).unwrap(),
        "[{\"text\":\"m1\"},{\"text\":\"m2\"},{\"text\":\"m3\"}]"
    );
    assert_eq!(transcript.requests.len(), 3);
    check_request(&transcript.requests[0], None);
    check_request(&transcript.requests[1], Some("c1"));
    check_request(&transcript.requests[2], Some("c2"));
}

#[test]
fn three_pages_pulled_by_hand() {
    let slack = client();
    let mut later = vec![page(&[], None), page(&["3"], Some("c2"))];
    let mut calls = vec![slack.chunk_request(None)];
    let (mut emitter, mut out) = Emitter::start();
    assert_eq!(out, b"[");
    let mut messages = match slack.messages(page(&["1", "2"], Some("c1"))) {
        Ok(messages) => messages,
        Err(error) => panic!("{}", error.message()),
    };
    loop {
        match messages.next() {
            Pull::Message(message) => out.extend(emitter.feed(Some(message)).ok().unwrap()),
            Pull::Finished => {
                out.extend(emitter.feed(None).ok().unwrap());
                break;
            }
            Pull::Fetch(request) => {
                calls.push(request);
                assert!(messages.supply(later.pop().unwrap()).is_ok());
            }
        }
    }
    assert_eq!(out, b"[1,2,3]");
    assert_eq!(calls.len(), 3);
    check_request(&calls[0], None);
    check_request(&calls[1], Some("c1"));
    check_request(&calls[2], Some("c2"));
    assert!(later.is_empty());
    assert!(matches!(messages.next(), Pull::Finished));
}

#[test]
fn no_messages_give_empty_array() {
    assert_eq!(output_of(vec![page(&[], None)]), b"[]");
    assert_eq!(output_of(vec![page(&[], Some("a")), page(&[], Some("b")), page(&[], None)]), b"[]");
}

#[test]
fn single_message_has_no_comma() {
    assert_eq!(output_of(vec![page(&["7"], None)]), b"[7]");
    assert_eq!(output_of(vec![page(&["7"], Some("a")), page(&[], None)]), b"[7]");
    assert_eq!(output_of(vec![page(&[], Some("a")), page(&["7"], None)]), b"[7]");
}

#[test]
fn commas_are_one_less_than_messages() {
    let layouts: Vec<Vec<usize>> =
        vec![vec![0], vec![1], vec![5], vec![2, 3], vec![0, 4, 0, 1], vec![3, 0, 0], vec![1, 1, 1, 1]];
    for layout in layouts {
        let mut pages = Vec::new();
        let mut n: usize = 0;
        for (i, count) in layout.iter().enumerate() {
            let texts: Vec<String> = (0..*count).map(|j| (n + j).to_string()).collect();
            let refs: Vec<&str> = texts.iter().map(|text| text.as_str()).collect();
            let cursor = format!("c{}", i);
            let more = if i + 1 < layout.len() { Some(cursor.as_str()) } else { None };
            pages.push(page(&refs, more));
            n += count;
        }
        let out = output_of(pages);
        let commas = out.iter().filter(|byte| **byte == b',').count();
        assert_eq!(commas, if n == 0 { 0 } else { n - 1 });
        let expected: Vec<String> = (0..n).map(|j| j.to_string()).collect();
        assert_eq!(String::from_utf8(out).unwrap(), format!("[{}]", expected.join(",")));
    }
}

#[test]
fn output_is_the_array_of_all_messages_in_order() {
    let texts = ["{\"text\":\"a,b\",\"ts\":\"1.5\"}", "[1,2,[3]]", "null", "\"x\"", "-2.5", "true"];
    let out = output_of(vec![
        page(&texts[0..2], Some("p2")),
        page(&[], Some("p3")),
        page(&texts[2..5], Some("p4")),
        page(&texts[5..6], None),
    ]);
    let parsed: Value = serde_json::from_slice(&out).unwrap();
    assert_eq!(parsed, Value::Array(values(&texts)));
    let bodies: Vec<String> =
        values(&texts).iter().map(|message| serde_json::to_string(message).unwrap()).collect();
    assert_eq!(String::from_utf8(out).unwrap(), format!("[{}]", bodies.join(",")));
}

#[test]
fn empty_page_in_the_middle_does_not_end_the_run() {
    let slack = client();
    let mut messages = match slack.messages(page(&["1"], Some("a"))) {
        Ok(messages) => messages,
        Err(error) => panic!("{}", error.message()),
    };
    assert!(matches!(messages.next(), Pull::Message(message) if message == value("1")));
    assert!(matches!(messages.next(), Pull::Fetch(request) if request.query[2] == pair("cursor", "a")));
    assert!(messages.supply(page(&[], Some("b"))).is_ok());
    assert!(matches!(messages.next(), Pull::Fetch(request) if request.query[2] == pair("cursor", "b")));
    assert!(messages.supply(page(&["2"], None)).is_ok());
    assert!(matches!(messages.next(), Pull::Message(message) if message == value("2")));
    assert!(matches!(messages.next(), Pull::Finished));
    assert!(matches!(messages.next(), Pull::Finished));
}

#[test]
fn invalid_auth_fails_the_run() {
    let error = error_of(vec![refusal(Some("invalid_auth"))]);
    assert!(matches!(&error, ExportError::Api(text) if text == "invalid_auth"));
    assert!(error.message().contains("invalid_auth"));
    assert_eq!(error.message(), "Error fetching data from the Slack API: invalid_auth");
    assert!(matches!(client().messages(refusal(Some("invalid_auth"))), Err(ExportError::Api(_))));
}

#[test]
fn refusal_without_text_is_unknown() {
    let error = error_of(vec![refusal(None)]);
    assert_eq!(error.message(), "Error fetching data from the Slack API: Unknown");
}

#[test]
fn refusal_wins_over_other_fields() {
    let mut reply = page(&["1"], Some("c"));
    reply.ok = false;
    reply.error = Some("channel_not_found".to_string());
    assert!(matches!(MessageChunk::try_from(reply), Err(ExportError::Api(text)) if text == "channel_not_found"));
}

#[test]
fn missing_cursor_fails_the_run() {
    for count in [0usize, 1, 3] {
        let texts = ["1", "2", "3"];
        let mut reply = page(&texts[0..count], None);
        reply.has_more = true;
        let error = error_of(vec![reply]);
        assert!(matches!(error, ExportError::MissingCursor));
        assert!(error.message().contains("missing cursor"));
        assert_eq!(
            error.message(),
            "Error fetching additional data: Slack API response missing cursor"
        );
    }
}

#[test]
fn missing_cursor_on_a_later_page() {
    let mut broken = page(&["2"], None);
    broken.has_more = true;
    let error = error_of(vec![page(&["1"], Some("c1")), broken]);
    assert!(matches!(error, ExportError::MissingCursor));
}

#[test]
fn refusal_on_a_later_page() {
    let error = error_of(vec![page(&["1"], Some("c1")), refusal(Some("ratelimited"))]);
    assert!(matches!(error, ExportError::Api(text) if text == "ratelimited"));
}

#[test]
fn failed_supply_leaves_the_page() {
    let slack = client();
    let mut messages = match slack.messages(page(&["1"], Some("a"))) {
        Ok(messages) => messages,
        Err(error) => panic!("{}", error.message()),
    };
    assert!(matches!(messages.supply(refusal(None)), Err(ExportError::Api(_))));
    assert!(matches!(messages.next(), Pull::Message(message) if message == value("1")));
    assert!(matches!(messages.next(), Pull::Fetch(_)));
}

#[test]
fn replay_is_repeatable() {
    let run = || {
        output_of(vec![
            page(&["{\"b\":1,\"a\":[2,3]}", "\"x\""], Some("c1")),
            page(&["4"], None),
        ])
    };
    let first = run();
    assert_eq!(first, run());
    assert_eq!(first, b"[{\"a\":[2,3],\"b\":1},\"x\",4]");
}

#[test]
fn long_chain_ends_after_last_page() {
    let mut pages = Vec::new();
    for i in 0..50 {
        let cursor = format!("c{}", i);
        pages.push(page(&["0"], Some(cursor.as_str())));
    }
    pages.push(page(&["0"], None));
    assert!(is_recorded(&pages));
    let transcript = replay(&client(), pages).ok().unwrap();
    assert_eq!(transcript.requests.len(), 51);
    assert_eq!(transcript.output.len(), 2 + 51 + 50);
    check_request(&transcript.requests[50], Some("c49"));
}

#[test]
fn chunk_of_last_page() {
    let mut chunk = MessageChunk::try_from(page(&["1", "2"], None)).ok().unwrap();
    assert!(matches!(chunk, MessageChunk::Terminal { .. }));
    assert_eq!(chunk.messages().len(), 2);
    assert_eq!(chunk.next(), Some(value("1")));
    assert_eq!(chunk.messages().len(), 1);
    assert_eq!(chunk.messages()[0], value("2"));
    assert_eq!(chunk.next(), Some(value("2")));
    assert_eq!(chunk.next(), None);
    assert_eq!(chunk.next(), None);
}

#[test]
fn chunk_of_page_with_successor() {
    let mut chunk = MessageChunk::try_from(page(&["\"a\""], Some("next"))).ok().unwrap();
    assert!(matches!(&chunk, MessageChunk::NonTerminal { next_cursor, .. } if next_cursor == "next"));
    assert_eq!(chunk.next(), Some(value("\"a\"")));
    assert_eq!(chunk.next(), None);
    assert!(matches!(&chunk, MessageChunk::NonTerminal { next_cursor, .. } if next_cursor == "next"));
}

#[test]
fn cursor_without_more_is_a_last_page() {
    let mut reply = page(&["1"], Some("ignored"));
    reply.has_more = false;
    assert!(!leads_on(&reply));
    assert!(matches!(MessageChunk::try_from(reply), Ok(MessageChunk::Terminal { .. })));
}

#[test]
fn first_request_has_no_cursor() {
    let request = client().chunk_request(None);
    check_request(&request, None);
    assert_eq!(request.query.len(), 2);
    assert_eq!(request.endpoint, CONVERSATION_HISTORY_ENDPOINT);
    assert_eq!(request.query[1].1, RESPONSE_MESSAGE_LIMIT.to_string());
    assert_eq!(RESPONSE_MESSAGE_LIMIT, 1000);
}

#[test]
fn later_request_carries_cursor() {
    let cursor = "dXNlcjpVMDYxTkZUVDI=".to_string();
    let request = client().chunk_request(Some(&cursor));
    check_request(&request, Some("dXNlcjpVMDYxTkZUVDI="));
    assert_eq!(request.query.len(), 3);
}

#[test]
fn emitter_holds_one_message_back() {
    let (mut emitter, open) = Emitter::start();
    assert_eq!(open, b"[");
    assert_eq!(emitter.feed(Some(value("{\"a\":1}"))).ok().unwrap(), b"");
    assert_eq!(emitter.feed(Some(value("[2]"))).ok().unwrap(), b"{\"a\":1},");
    assert_eq!(emitter.feed(Some(value("3"))).ok().unwrap(), b"[2],");
    assert_eq!(emitter.feed(None).ok().unwrap(), b"3]");
}

#[test]
fn emitter_without_messages_closes_at_once() {
    let (mut emitter, open) = Emitter::start();
    assert_eq!(open, b"[");
    assert_eq!(emitter.feed(None).ok().unwrap(), b"]");
}

#[test]
fn piece_appends_comma_or_bracket() {
    assert_eq!(piece(b"{}".to_vec(), true), b"{},");
    assert_eq!(piece(b"{}".to_vec(), false), b"{}]");
    assert_eq!(piece(Vec::new(), true), b",");
}

#[test]
fn encode_error_is_described() {
    let outside = serde_json::from_str::<Value>("{").unwrap_err();
    let text = outside.to_string();
    let error = ExportError::Encode(outside);
    assert_eq!(error.message(), text);
    assert!(!error.message().is_empty());
}

#[test]
fn recorded_runs_are_recognised() {
    assert!(!is_recorded(&Vec::new()));
    assert!(is_recorded(&vec![page(&[], None)]));
    assert!(is_recorded(&vec![refusal(None)]));
    assert!(!is_recorded(&vec![page(&[], Some("a"))]));
    assert!(!is_recorded(&vec![page(&[], None), page(&[], None)]));
    assert!(!is_recorded(&vec![refusal(None), page(&[], None)]));
    assert!(is_recorded(&vec![page(&[], Some("a")), page(&["1"], Some("b")), refusal(Some("x"))]));
    assert!(leads_on(&page(&[], Some("a"))));
    assert!(!leads_on(&page(&[], None)));
    assert!(!leads_on(&refusal(None)));
}

fn pulls_of(mut pages: Vec<Response>) -> (Vec<Value>, Vec<String>, usize) {
    pages.reverse();
    let slack = client();
    let mut messages = match slack.messages(pages.pop().unwrap()) {
        Ok(messages) => messages,
        Err(error) => panic!("{}", error.message()),
    };
    let mut pulled = Vec::new();
    let mut cursors = Vec::new();
    let mut pulls: usize = 0;
    loop {
        pulls += 1;
        match messages.next() {
            Pull::Message(message) => pulled.push(message),
            Pull::Finished => break,
            Pull::Fetch(request) => {
                cursors.push(request.query[2].1.clone());
                assert!(messages.supply(pages.pop().unwrap()).is_ok());
            }
        }
    }
    assert!(pages.is_empty());
    assert!(matches!(messages.next(), Pull::Finished));
    (pulled, cursors, pulls)
}

#[test]
fn pulls_hand_out_every_message_in_order() {
    let run = || {
        vec![
            page(&["1", "{\"a\":2}"], Some("c1")),
            page(&[], Some("c2")),
            page(&["3", "\"4\"", "[5]"], Some("c3")),
            page(&["6"], None),
        ]
    };
    let (pulled, cursors, pulls) = pulls_of(run());
    assert_eq!(pulled, values(&["1", "{\"a\":2}", "3", "\"4\"", "[5]", "6"]));
    assert_eq!(cursors, vec!["c1", "c2", "c3"]);
    assert_eq!(pulls, 6 + 3 + 1);
    let (again, cursors_again, pulls_again) = pulls_of(run());
    assert_eq!(pulled, again);
    assert_eq!(cursors, cursors_again);
    assert_eq!(pulls, pulls_again);
}

#[test]
fn pulls_end_at_once_on_an_empty_last_page() {
    let (pulled, cursors, pulls) = pulls_of(vec![page(&[], None)]);
    assert!(pulled.is_empty());
    assert!(cursors.is_empty());
    assert_eq!(pulls, 1);
}

#[test]
fn refused_reply_with_messages_gives_its_error() {
    let mut reply = page(&["1", "2", "3"], None);
    reply.ok = false;
    reply.error = Some("not_in_channel".to_string());
    let error = error_of(vec![reply]);
    assert!(matches!(error, ExportError::Api(text) if text == "not_in_channel"));
    let mut late = page(&["4"], None);
    late.ok = false;
    let error = error_of(vec![page(&["1", "2", "3"], Some("c")), late]);
    assert_eq!(error.message(), "Error fetching data from the Slack API: Unknown");
}

use openfang_memory::fragment::{MemoryFragment, MemorySource};
use openfang_memory::http::Exchange;
use openfang_memory::ids::{AgentId, MemoryId};
use openfang_memory::json::Json;
use openfang_memory::qmd::{
    fragment_from_entry, fragments_from_entries, listing_of, QmdConfig, QmdRecallBackend,
};
use openfang_memory::time::Timestamp;

fn backend() -> QmdRecallBackend {
    QmdRecallBackend::new(QmdConfig::default())
}

fn answered(body: &str) -> Exchange {
    Exchange::Answered { status: 200, body: Some(body.as_bytes().to_vec()) }
}

/// The answer of a server whose listing is the given text.
fn listing(text: &str) -> Exchange {
    let quoted = serde_json::to_string(text).unwrap();
    answered(&format!(
        "{{\"result\": {{\"content\": [{{\"type\": \"text\", \"text\": {quoted}}}]}}}}"
    ))
}

fn metadata_text<'a>(fragment: &'a MemoryFragment, name: &str) -> Option<&'a str> {
    for (key, value) in &fragment.metadata {
        if key == name {
            return match value {
                Json::Text(text) => Some(text.as_str()),
                _ => None,
            };
        }
    }
    None
}

const LISTING: &str = r#"[
    {"score": 0.85, "path": "docs/a.md", "content": "alpha"},
    {"score": 2, "content": ""},
    {"path": "docs/c.md"},
    {"content": 4},
    "text",
    {"path": 9, "content": "omega"}
]"#;

#[test]
fn default_configuration() {
    let config = QmdConfig::default();
    assert_eq!(config.base_url, "http://127.0.0.1:7384");
    assert_eq!(config.timeout_ms, 2000);
    let copy = QmdRecallBackend::new(config).clone();
    assert_eq!(copy.config.base_url, "http://127.0.0.1:7384");
    assert_eq!(copy.config.timeout_ms, 2000);
}

#[test]
fn query_request_calls_the_query_tool() {
    let request = backend().query_request("what \u{1F600}", 25);
    assert_eq!(request.url, "http://127.0.0.1:7384/mcp");
    assert_eq!(request.body.get_text("jsonrpc"), Some("2.0"));
    assert_eq!(request.body.get_number("id"), Some("1"));
    assert_eq!(request.body.get_text("method"), Some("tools/call"));
    let params = request.body.get("params").unwrap();
    assert_eq!(params.get_text("name"), Some("query"));
    let arguments = params.get("arguments").unwrap();
    assert_eq!(arguments.get_text("query"), Some("what \u{1F600}"));
    assert_eq!(arguments.get_number("limit"), Some("25"));
}

#[test]
fn base_url_is_used_as_it_is() {
    let config = QmdConfig { base_url: "http://host/".to_string(), timeout_ms: 1 };
    assert_eq!(QmdRecallBackend::new(config).query_request("q", 1).url, "http://host//mcp");
}

#[test]
fn listing_becomes_fragments() {
    let fragments = backend().query_reply(10, &listing(LISTING));
    assert_eq!(fragments.len(), 3);
    let f = &fragments[0];
    assert_eq!(f.content, "alpha");
    assert_eq!(f.score, "0.85");
    assert_eq!(metadata_text(f, "source_path"), Some("docs/a.md"));
    assert_eq!(metadata_text(f, "backend"), Some("qmd"));
    assert_eq!(f.metadata.len(), 2);
    assert_eq!(f.agent_id, AgentId(0));
    assert_eq!(f.source, MemorySource::Document);
    assert!(f.embedding.is_none());
    assert_eq!(f.access_count, 0);
    assert_eq!(f.scope, "qmd");
    assert_eq!(uuid::Uuid::from_u128(f.id.0).get_version_num(), 4);
    assert_eq!(fragments[1].content, "");
    assert_eq!(fragments[1].score, "2");
    assert_eq!(fragments[2].content, "omega");
    assert_eq!(fragments[2].score, "0.5");
    assert_eq!(metadata_text(&fragments[2], "source_path"), Some(""));
}

#[test]
fn at_most_limit_fragments_come_back() {
    for limit in 0..5usize {
        let fragments = backend().query_reply(limit, &listing(LISTING));
        let contents: Vec<&str> = fragments.iter().map(|f| f.content.as_str()).collect();
        let all = ["alpha", "", "omega"];
        assert_eq!(contents, all[..limit.min(3)]);
    }
}

#[test]
fn status_is_not_looked_at() {
    let Exchange::Answered { body, .. } = listing(LISTING) else { panic!() };
    let fragments = backend().query_reply(10, &Exchange::Answered { status: 500, body });
    assert_eq!(fragments.len(), 3);
}

#[test]
fn no_answer_gives_no_fragments() {
    assert!(backend().query_reply(10, &Exchange::Failed).is_empty());
    assert!(backend().query_reply(10, &Exchange::Answered { status: 200, body: None }).is_empty());
    assert!(backend().query_reply(10, &answered("no json")).is_empty());
}

#[test]
fn answer_without_listing_gives_no_fragments() {
    for body in [
        "{}",
        "[]",
        r#"{"result": {"content": []}}"#,
        r#"{"result": {"content": [{"text": 5}]}}"#,
        r#"{"result": {"content": [[{"text": "[]"}]]}}"#,
        r#"{"error": {"code": -32601}}"#,
    ] {
        assert!(backend().query_reply(10, &answered(body)).is_empty());
    }
    assert!(backend().query_reply(10, &listing("{\"content\": \"x\"}")).is_empty());
    assert!(backend().query_reply(10, &listing("oops")).is_empty());
    assert!(backend().query_reply(10, &listing("[]")).is_empty());
}

#[test]
fn pointer_also_descends_into_a_member_named_zero() {
    let body = r#"{"result": {"content": {"0": {"text": "[{\"content\": \"x\"}]"}}}}"#;
    let fragments = backend().query_reply(10, &answered(body));
    assert_eq!(fragments.len(), 1);
    assert_eq!(fragments[0].content, "x");
}

#[test]
fn listing_text_falls_back_to_an_empty_list() {
    assert_eq!(listing_of(Some(Json::Text("abc".to_string()))), "abc");
    assert_eq!(listing_of(Some(Json::Null)), "[]");
    assert_eq!(listing_of(None), "[]");
}

#[test]
fn entry_of_a_listing_takes_the_given_stamp() {
    let entry = Json::Object(vec![("content".to_string(), Json::Text("c".to_string()))]);
    let t = Timestamp::new(5, 6).unwrap();
    let u = Timestamp::new(7, 8).unwrap();
    let f = fragment_from_entry(&entry, MemoryId(3), t, u).unwrap();
    assert_eq!(f.id, MemoryId(3));
    assert_eq!(f.created_at, t);
    assert_eq!(f.accessed_at, u);
    assert_eq!(f.content, "c");
    assert!(fragment_from_entry(&Json::Bool(true), MemoryId(3), t, u).is_none());
    assert_eq!(fragments_from_entries(&vec![entry], 0).len(), 0);
}

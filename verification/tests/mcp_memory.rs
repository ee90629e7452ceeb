use openfang_memory::fragment::{MemoryFragment, MemorySource};
use openfang_memory::http::Exchange;
use openfang_memory::ids::{AgentId, MemoryId};
use openfang_memory::json::Json;
use openfang_memory::mcp_memory::{
    format_fragment_as_markdown, fragment_from_entry, fragment_path, fragments_from_answer,
    ingest_body, markdown_document, path_in_month, McpMemoryBackend, McpMemoryServiceConfig,
};
use openfang_memory::time::Timestamp;

fn make_backend(base_url: &str) -> McpMemoryBackend {
    McpMemoryBackend::new(&McpMemoryServiceConfig {
        name: "test".to_string(),
        mcp_url: base_url.to_string(),
        timeout_ms: 1000,
        rank: 1,
    })
}

fn instant(text: &str) -> Timestamp {
    let t = chrono::DateTime::parse_from_rfc3339(text).unwrap();
    Timestamp::new(t.timestamp(), t.timestamp_subsec_nanos()).unwrap()
}

/// A confidence as documents show it.
fn shown(confidence: f32) -> String {
    format!("{:.2}", confidence)
}

fn make_fragment(content: &str, source: MemorySource, confidence: f32, scope: &str) -> MemoryFragment {
    MemoryFragment {
        id: MemoryId(0),
        agent_id: AgentId(0),
        content: content.to_string(),
        embedding: None,
        metadata: Vec::new(),
        source,
        score: confidence.to_string(),
        created_at: instant("2026-03-14T00:00:00Z"),
        accessed_at: Timestamp::now(),
        access_count: 0,
        scope: scope.to_string(),
    }
}

fn answered(status: u16, body: &str) -> Exchange {
    Exchange::Answered { status, body: Some(body.as_bytes().to_vec()) }
}

fn metadata_text<'a>(fragment: &'a MemoryFragment, name: &str) -> Option<&'a str> {
    for (key, value) in &fragment.metadata {
        if key == name {
            return match value {
                Json::Text(text) => Some(text.as_str()),
                _ => None,
            };
        }
    }
    None
}

fn score(fragment: &MemoryFragment) -> f32 {
    fragment.score.parse::<f64>().unwrap() as f32
}

const REPLY: &str = r##"{
    "results": [
        {
            "docid": "#abc123",
            "file": "notes/arch.md",
            "title": "Architecture Overview",
            "score": 0.92,
            "snippet": "The system uses a layered approach..."
        },
        {
            "docid": "#def456",
            "file": "notes/deploy.md",
            "title": "Deployment Guide",
            "score": 0.75,
            "snippet": ""
        },
        {
            "docid": "#skip",
            "file": "empty.md",
            "title": "",
            "score": 0.5,
            "snippet": ""
        }
    ]
}"##;

#[test]
fn endpoint_uses_query_path() {
    let b = make_backend("http://qmd:8181");
    assert_eq!(b.query_endpoint, "http://qmd:8181/query");
}

#[test]
fn endpoint_strips_trailing_slash() {
    let b = make_backend("http://qmd:8181/");
    assert_eq!(b.query_endpoint, "http://qmd:8181/query");
}

#[test]
fn ingest_endpoint_uses_ingest_path() {
    let b = make_backend("http://qmd:8181");
    assert_eq!(b.ingest_endpoint, "http://qmd:8181/ingest");
}

#[test]
fn health_endpoint_uses_health_path() {
    let b = make_backend("http://qmd:8181");
    assert_eq!(b.health_endpoint(), "http://qmd:8181/health");
}

#[test]
fn maps_qmd_results_to_fragments() {
    let backend = make_backend("http://qmd:8181");
    let fragments = backend.query_reply(&answered(200, REPLY)).unwrap();

    assert_eq!(fragments.len(), 2, "empty-content entry should be dropped");

    assert!(fragments[0].content.contains("Architecture Overview"));
    assert!(fragments[0].content.contains("layered approach"));
    assert!((score(&fragments[0]) - 0.92f32).abs() < 0.001);
    assert_eq!(metadata_text(&fragments[0], "source_path"), Some("notes/arch.md"));

    assert_eq!(fragments[1].content, "Deployment Guide");
}

#[test]
fn format_fragment_has_title_and_metadata() {
    let frag = make_fragment(
        "The user prefers concise answers.",
        MemorySource::Conversation,
        0.9,
        "episodic",
    );
    let md = format_fragment_as_markdown(&frag, &shown(0.9));
    assert!(md.starts_with("# The user prefers concise answers."));
    assert!(md.contains("**Source**: Conversation"));
    assert!(md.contains("**Scope**: episodic"));
    assert!(md.contains("**Confidence**: 0.90"));
    assert!(md.contains("The user prefers concise answers."));
}

#[test]
fn format_fragment_title_truncated_at_60() {
    let long_line = "A".repeat(80);
    let mut frag = make_fragment(&long_line, MemorySource::System, 1.0, "global");
    frag.created_at = Timestamp::now();
    let md = format_fragment_as_markdown(&frag, &shown(1.0));
    let first_line = md.lines().next().unwrap();
    // "# " prefix + 60 chars = 62 chars
    assert_eq!(first_line.len(), 62, "title should be truncated to 60 chars");
}

#[test]
fn backend_keeps_its_configuration() {
    let b = make_backend("http://qmd:8181");
    assert_eq!(b.name, "test");
    assert_eq!(b.rank, 1);
    assert_eq!(b.timeout_ms, 1000);
    let copy = b.clone();
    assert_eq!(copy.name, "test");
    assert_eq!(copy.health_endpoint, "http://qmd:8181/health");
}

#[test]
fn all_trailing_slashes_are_stripped_from_each_endpoint() {
    let b = make_backend("http://qmd:8181/a///");
    assert_eq!(b.query_endpoint, "http://qmd:8181/a/query");
    assert_eq!(b.ingest_endpoint, "http://qmd:8181/a/ingest");
    assert_eq!(b.health_endpoint(), "http://qmd:8181/a/health");
    let only_slashes = make_backend("///");
    assert_eq!(only_slashes.query_endpoint, "/query");
    let empty = make_backend("");
    assert_eq!(empty.query_endpoint, "/query");
}

#[test]
fn query_request_searches_twice_for_the_same_text() {
    let request = make_backend("http://qmd:8181").query_request("caf\u{e9} \"x\"", 120);
    assert_eq!(request.url, "http://qmd:8181/query");
    let searches = request.body.get_array("searches").unwrap();
    assert_eq!(searches.len(), 2);
    assert_eq!(searches[0].get_text("type"), Some("vec"));
    assert_eq!(searches[0].get_text("query"), Some("caf\u{e9} \"x\""));
    assert_eq!(searches[1].get_text("type"), Some("lex"));
    assert_eq!(searches[1].get_text("query"), Some("caf\u{e9} \"x\""));
    assert_eq!(request.body.get_number("limit"), Some("120"));
}

#[test]
fn limits_are_written_in_decimal() {
    let backend = make_backend("http://qmd:8181");
    for limit in [0usize, 9, 10, 101, 1_000_000, usize::MAX] {
        let request = backend.query_request("q", limit);
        assert_eq!(request.body.get_number("limit"), Some(limit.to_string().as_str()));
    }
}

#[test]
fn no_response_gives_no_reply() {
    assert!(make_backend("http://qmd:8181").query_reply(&Exchange::Failed).is_none());
}

#[test]
fn error_status_gives_no_reply() {
    let backend = make_backend("http://qmd:8181");
    for status in [100u16, 199, 300, 301, 404, 500, 503] {
        assert!(backend.query_reply(&answered(status, REPLY)).is_none());
    }
    for status in [200u16, 201, 204, 299] {
        assert_eq!(backend.query_reply(&answered(status, REPLY)).unwrap().len(), 2);
    }
}

#[test]
fn unreadable_body_ends_the_chain_with_nothing() {
    let backend = make_backend("http://qmd:8181");
    assert_eq!(backend.query_reply(&answered(200, "not json")).unwrap().len(), 0);
    assert_eq!(backend.query_reply(&answered(200, "")).unwrap().len(), 0);
    assert!(backend.query_reply(&answered(500, "not json")).is_none());
}

#[test]
fn body_not_read_to_its_end_gives_no_reply() {
    let backend = make_backend("http://qmd:8181");
    assert!(backend.query_reply(&Exchange::Answered { status: 200, body: None }).is_none());
}

#[test]
fn success_without_results_is_an_empty_reply() {
    let backend = make_backend("http://qmd:8181");
    for body in ["{}", "[]", "7", r#"{"results": []}"#, r#"{"results": {"a": 1}}"#, r#"{"results": null}"#] {
        assert_eq!(backend.query_reply(&answered(200, body)).unwrap().len(), 0);
    }
}

#[test]
fn recalled_fragment_is_shared_and_attributed() {
    let backend = make_backend("http://qmd:8181");
    let fragments = backend.query_reply(&answered(200, REPLY)).unwrap();
    let f = &fragments[0];
    assert_eq!(
        f.content,
        "Architecture Overview\n\nThe system uses a layered approach..."
    );
    assert_eq!(f.agent_id, AgentId(0));
    assert_eq!(f.source, MemorySource::Document);
    assert!(f.embedding.is_none());
    assert_eq!(f.access_count, 0);
    assert_eq!(f.scope, "mcp");
    assert_eq!(f.score, "0.92");
    assert_eq!(f.metadata.len(), 3);
    assert_eq!(metadata_text(f, "docid"), Some("#abc123"));
    assert_eq!(metadata_text(f, "mcp_service"), Some("test"));
    assert!(f.created_at.seconds() >= 1_600_000_000);
    assert!(f.created_at.nanos() < 1_000_000_000);
    assert!(f.accessed_at.nanos() < 1_000_000_000);
    let id = uuid::Uuid::from_u128(f.id.0);
    assert_eq!(id.get_version_num(), 4);
    assert_ne!(fragments[0].id, fragments[1].id);
}

#[test]
fn fields_of_another_type_count_as_absent() {
    let backend = make_backend("http://qmd:8181");
    let body = r#"{"results": [
        {"title": 5, "snippet": "s", "score": "high", "file": null, "docid": []},
        {"title": false, "snippet": 1},
        3,
        {"snippet": "t", "score": -2}
    ]}"#;
    let fragments = backend.query_reply(&answered(200, body)).unwrap();
    assert_eq!(fragments.len(), 2);
    assert_eq!(fragments[0].content, "s");
    assert_eq!(fragments[0].score, "0.5");
    assert_eq!(metadata_text(&fragments[0], "source_path"), Some(""));
    assert_eq!(metadata_text(&fragments[0], "docid"), Some(""));
    assert_eq!(fragments[1].content, "t");
    assert_eq!(fragments[1].score, "-2");
}

#[test]
fn scores_keep_their_value() {
    let backend = make_backend("http://qmd:8181");
    for text in ["0.1", "0.30000000000000004", "1e-7", "12345678901234567890", "-1", "1.5e300", "0"] {
        let body = format!("{{\"results\": [{{\"title\": \"t\", \"score\": {text}}}]}}");
        let value: serde_json::Value = serde_json::from_str(&body).unwrap();
        let expected = value["results"][0]["score"].as_f64().unwrap();
        let fragments = backend.query_reply(&answered(200, &body)).unwrap();
        assert_eq!(fragments[0].score.parse::<f64>().unwrap(), expected);
    }
}

#[test]
fn entry_becomes_the_fragment_with_the_given_stamp() {
    let entry = Json::Object(vec![
        ("title".to_string(), Json::Text("T".to_string())),
        ("title".to_string(), Json::Text("second".to_string())),
        ("snippet".to_string(), Json::Text("S".to_string())),
    ]);
    let created = instant("2026-03-14T01:02:03Z");
    let accessed = instant("2026-03-15T00:00:00Z");
    let f = fragment_from_entry(&entry, "svc", MemoryId(7), created, accessed).unwrap();
    assert_eq!(f.id, MemoryId(7));
    assert_eq!(f.created_at, created);
    assert_eq!(f.accessed_at, accessed);
    assert_eq!(f.content, "T\n\nS");
    assert_eq!(metadata_text(&f, "mcp_service"), Some("svc"));
    assert!(fragment_from_entry(&Json::Null, "svc", MemoryId(7), created, accessed).is_none());
}

#[test]
fn entries_are_mapped_one_by_one_in_order() {
    let entry = |title: &str| Json::Object(vec![("title".to_string(), Json::Text(title.to_string()))]);
    let document = Json::Object(vec![(
        "results".to_string(),
        Json::Array(vec![entry("a"), entry(""), entry("b"), entry("c")]),
    )]);
    let fragments = fragments_from_answer(&document, "svc");
    let contents: Vec<&str> = fragments.iter().map(|f| f.content.as_str()).collect();
    assert_eq!(contents, ["a", "b", "c"]);
}

#[test]
fn markdown_document_is_exact() {
    let mut frag = make_fragment("First\nsecond", MemorySource::Document, 0.756, "mcp");
    frag.agent_id = AgentId(0x0123_4567_89ab_cdef_0123_4567_89ab_cdef);
    assert_eq!(
        format_fragment_as_markdown(&frag, &shown(0.756)),
        "# First\n\n**Agent**: 01234567-89ab-cdef-0123-456789abcdef\n**Source**: Document\n\
         **Scope**: mcp\n**Confidence**: 0.76\n**Created**: 2026-03-14T00:00:00+00:00\n\n\
         First\nsecond\n"
    );
}

#[test]
fn titles_come_from_the_first_line() {
    let long = "x".repeat(60);
    let wide = "\u{e9}".repeat(61);
    let cases: Vec<(String, String)> = vec![
        (String::new(), "Memory Fragment".to_string()),
        ("\nrest".to_string(), String::new()),
        ("\r\nrest".to_string(), String::new()),
        ("one\r\ntwo".to_string(), "one".to_string()),
        ("one\rtwo\nthree".to_string(), "one\rtwo".to_string()),
        ("one\r".to_string(), "one\r".to_string()),
        ("one\r\r\ntwo".to_string(), "one\r".to_string()),
        (long.clone(), long),
        (wide, "\u{e9}".repeat(60)),
    ];
    for (content, title) in cases {
        let expected: String =
            content.lines().next().unwrap_or("Memory Fragment").chars().take(60).collect();
        assert_eq!(expected, title);
        let frag = make_fragment(&content, MemorySource::System, 1.0, "s");
        let md = format_fragment_as_markdown(&frag, &shown(1.0));
        assert!(md.starts_with(&format!("# {title}\n\n**Agent**: ")));
        assert!(md.ends_with(&format!("\n\n{content}\n")));
    }
}

#[test]
fn push_request_hands_over_the_document() {
    let mut frag = make_fragment("Hello", MemorySource::Conversation, 0.9, "episodic");
    frag.id = MemoryId(0x10);
    frag.agent_id = AgentId(0xff);
    let request = make_backend("http://qmd:8181/").push_request(&frag, &shown(0.9));
    assert_eq!(request.url, "http://qmd:8181/ingest");
    assert_eq!(request.body.get_text("collection"), Some("openfang-memories"));
    let path = "00000000-0000-0000-0000-0000000000ff/2026-03/00000000-0000-0000-0000-000000000010.md";
    assert_eq!(request.body.get_text("path"), Some(path));
    assert_eq!(fragment_path(&frag), path);
    assert_eq!(
        request.body.get_text("content"),
        Some(format_fragment_as_markdown(&frag, "0.90").as_str())
    );
    assert_eq!(request.body.get_text("created_at"), Some("2026-03-14T00:00:00+00:00"));
}

#[test]
fn distinct_memories_have_distinct_paths() {
    let mut a = make_fragment("x", MemorySource::System, 1.0, "s");
    let mut b = make_fragment("x", MemorySource::System, 1.0, "s");
    a.id = MemoryId(1);
    b.id = MemoryId(1u128 << 127);
    assert_ne!(fragment_path(&a), fragment_path(&b));
    b.id = MemoryId(1);
    assert_eq!(fragment_path(&a), fragment_path(&b));
    b.agent_id = AgentId(1);
    assert_ne!(fragment_path(&a), fragment_path(&b));
}

#[test]
fn path_follows_the_month_of_creation_alone() {
    let mut a = make_fragment("x", MemorySource::System, 1.0, "s");
    let mut b = make_fragment("other", MemorySource::Document, 0.2, "t");
    a.created_at = instant("2024-02-01T00:00:00Z");
    b.created_at = instant("2024-02-29T23:59:59.999Z");
    assert_eq!(fragment_path(&a), fragment_path(&b));
    b.created_at = instant("2024-03-01T00:00:00Z");
    assert_ne!(fragment_path(&a), fragment_path(&b));
    b.created_at = instant("2023-02-01T00:00:00Z");
    assert_ne!(fragment_path(&a), fragment_path(&b));
    b.created_at = instant("2024-03-01T00:30:00+01:00");
    assert_eq!(fragment_path(&a), fragment_path(&b));
}

#[test]
fn documents_are_made_of_the_given_texts() {
    let mut frag = make_fragment("c", MemorySource::System, 1.0, "s");
    frag.id = MemoryId(2);
    assert_eq!(
        markdown_document(&frag, "high", "then"),
        "# c\n\n**Agent**: 00000000-0000-0000-0000-000000000000\n**Source**: System\n\
         **Scope**: s\n**Confidence**: high\n**Created**: then\n\nc\n"
    );
    assert_eq!(
        path_in_month(&frag, "month"),
        "00000000-0000-0000-0000-000000000000/month/00000000-0000-0000-0000-000000000002.md"
    );
    let body = ingest_body("p".to_string(), "c".to_string(), "t".to_string());
    assert_eq!(body.get_text("collection"), Some("openfang-memories"));
    assert_eq!(body.get_text("path"), Some("p"));
    assert_eq!(body.get_text("content"), Some("c"));
    assert_eq!(body.get_text("created_at"), Some("t"));
}

#[test]
fn push_succeeds_on_success_status_alone() {
    let backend = make_backend("http://qmd:8181");
    assert!(backend.push_reply(&Exchange::Answered { status: 200, body: None }));
    assert!(backend.push_reply(&Exchange::Answered { status: 299, body: None }));
    assert!(!backend.push_reply(&Exchange::Answered { status: 199, body: None }));
    assert!(!backend.push_reply(&Exchange::Answered { status: 300, body: None }));
    assert!(!backend.push_reply(&Exchange::Answered { status: 500, body: None }));
    assert!(!backend.push_reply(&Exchange::Failed));
}

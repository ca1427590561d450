use echo_rs::config::split_segments;
use echo_rs::echo::{
    collect_params, header_value_text, normalize_request, root_path, serialize_request, EchoBody,
    HeaderEntry, RawRequest,
};
use echo_rs::filter::{parse_unlogged_patterns, LogFilter};
use echo_rs::strmap::StrMap;

fn request(
    client: Option<&str>,
    method: &str,
    path: Option<&str>,
    params: &[(&str, &str)],
    headers: Vec<HeaderEntry>,
    body: &[u8],
) -> RawRequest {
    RawRequest {
        client: client.map(|c| c.to_string()),
        method: method.to_string(),
        path: path.map(|p| p.to_string()),
        params: params.iter().map(|(k, v)| (k.to_string(), v.to_string())).collect(),
        headers,
        body: body.to_vec(),
    }
}

fn header(name: &str, value: &[u8]) -> HeaderEntry {
    HeaderEntry { name: Some(name.to_string()), value: value.to_vec() }
}

#[test]
fn suppression_patterns_hide_matching_paths() {
    let filter = LogFilter::new("/health, /internal/.*");
    assert!(!filter.should_log("/health"));
    assert!(filter.should_log("/users/1"));
    assert!(!filter.should_log("/internal/debug"));
}

#[test]
fn suppression_matches_anywhere_in_path() {
    let filter = LogFilter::new("health");
    assert!(!filter.should_log("/api/health/check"));
    assert!(filter.should_log("/api/status"));
}

#[test]
fn empty_configuration_logs_everything() {
    let filter = LogFilter::new("");
    assert!(filter.pattern_sources().is_empty());
    assert!(filter.should_log("/anything"));
    assert!(parse_unlogged_patterns("").is_empty());
}

#[test]
fn invalid_pattern_is_dropped_and_valid_one_kept() {
    let filter = LogFilter::new("(unclosed;/ok");
    assert_eq!(filter.pattern_sources(), vec!["/ok".to_string()]);
    assert!(!filter.should_log("/ok"));
    assert!(filter.should_log("/unclosed"));
}

#[test]
fn parsed_patterns_keep_their_sources() {
    let pats = parse_unlogged_patterns("a;b[,c");
    let sources: Vec<&str> = pats.iter().map(|p| p.as_str()).collect();
    assert_eq!(sources, vec!["a", "c"]);
}

#[test]
fn segments_split_on_comma_and_semicolon() {
    assert_eq!(split_segments("a, b;c,,d"), vec!["a", "b", "c", "", "d"]);
    assert_eq!(split_segments("a;  b"), vec!["a", " b"]);
    assert_eq!(split_segments("x,"), vec!["x", ""]);
    assert_eq!(split_segments("single"), vec!["single"]);
    assert!(split_segments("").is_empty());
}

#[test]
fn path_gets_leading_slash() {
    assert_eq!(root_path(Some("foo/bar".to_string())), "/foo/bar");
    assert_eq!(root_path(Some("/foo".to_string())), "/foo");
    assert_eq!(root_path(Some(String::new())), "/");
    assert_eq!(root_path(None), "/");
    assert_eq!(root_path(Some("é/x".to_string())), "/é/x");
}

#[test]
fn header_values_that_are_not_text_get_placeholder() {
    assert_eq!(header_value_text(b"text/plain".to_vec()), "text/plain");
    assert_eq!(header_value_text(vec![0xFF, 0x41]), "<non-ascii string>");
    assert_eq!(header_value_text("café".as_bytes().to_vec()), "café");
    assert_eq!(header_value_text(Vec::new()), "");
}

#[test]
fn headers_skip_unnamed_and_keep_last_value() {
    let doc = normalize_request(request(
        None,
        "GET",
        Some("/"),
        &[],
        vec![
            header("accept", b"a"),
            HeaderEntry { name: None, value: b"ignored".to_vec() },
            header("bad", &[0xC3]),
            header("accept", b"b"),
        ],
        b"",
    ));
    assert_eq!(doc.headers.len(), 2);
    assert_eq!(doc.headers.get("accept"), Some("b".to_string()));
    assert_eq!(doc.headers.get("bad"), Some("<non-ascii string>".to_string()));
    assert_eq!(doc.headers.get("ignored"), None);
}

#[test]
fn params_keep_last_value_for_a_name() {
    let params = collect_params(vec![
        ("x".to_string(), "1".to_string()),
        ("y".to_string(), "2".to_string()),
        ("x".to_string(), "3".to_string()),
    ]);
    assert_eq!(params.len(), 2);
    assert_eq!(params.get("x"), Some("3".to_string()));
    assert_eq!(params.get("y"), Some("2".to_string()));
    assert_eq!(params.get("z"), None);
}

#[test]
fn post_with_json_body_is_echoed() {
    let doc = normalize_request(request(
        Some("10.0.0.5:5555"),
        "POST",
        Some("foo/bar"),
        &[("x", "1")],
        vec![header("content-type", b"application/json")],
        b"{\"a\":1}",
    ));
    assert_eq!(doc.client, Some("10.0.0.5:5555".to_string()));
    assert_eq!(doc.method, "POST");
    assert_eq!(doc.path, "/foo/bar");
    assert_eq!(doc.headers.get("content-type"), Some("application/json".to_string()));
    assert_eq!(doc.params.get("x"), Some("1".to_string()));
    assert_eq!(doc.params.len(), 1);
    assert_eq!(doc.body, EchoBody::Json(b"{\"a\":1}".to_vec()));
}

#[test]
fn get_root_with_empty_body_is_null() {
    let doc = normalize_request(request(None, "GET", Some("/"), &[], Vec::new(), b""));
    assert_eq!(doc.path, "/");
    assert_eq!(doc.body, EchoBody::Null);
    assert_eq!(doc.headers.len(), 0);
    assert_eq!(doc.params.len(), 0);
    let doc = normalize_request(request(None, "GET", None, &[], Vec::new(), b""));
    assert_eq!(doc.path, "/");
}

#[test]
fn invalid_json_body_becomes_byte_array() {
    let doc = normalize_request(request(None, "POST", Some("/x"), &[], Vec::new(), &[0xFF, 0x00]));
    assert_eq!(doc.body, EchoBody::Bytes(vec![255, 0]));
    let doc = normalize_request(request(None, "POST", Some("/x"), &[], Vec::new(), b"{\"a\":"));
    assert_eq!(doc.body, EchoBody::Bytes(b"{\"a\":".to_vec()));
}

#[test]
fn json_scalars_and_arrays_are_json() {
    for text in ["null", "true", "1.5", "\"s\"", "[1,2]", " {} "] {
        let doc = normalize_request(request(None, "PUT", Some("/"), &[], Vec::new(), text.as_bytes()));
        assert_eq!(doc.body, EchoBody::Json(text.as_bytes().to_vec()));
    }
}

#[test]
fn normalizing_twice_gives_the_same_document() {
    let make = || {
        request(
            Some("1.2.3.4:80"),
            "PATCH",
            Some("a"),
            &[("k", "v")],
            vec![header("h", &[0x80]), header("g", b"x")],
            &[1, 2, 3],
        )
    };
    let a = normalize_request(make());
    let b = normalize_request(make());
    assert_eq!(a.client, b.client);
    assert_eq!(a.method, b.method);
    assert_eq!(a.path, b.path);
    assert_eq!(a.body, b.body);
    let mut ha = a.headers.to_pairs();
    let mut hb = b.headers.to_pairs();
    ha.sort();
    hb.sort();
    assert_eq!(ha, hb);
    assert_eq!(a.params.to_pairs(), b.params.to_pairs());
}

#[test]
fn handler_decides_logging_from_the_echoed_path() {
    let filter = LogFilter::new("^/health$");
    let (doc, log) = serialize_request(&filter, request(None, "GET", Some("health"), &[], Vec::new(), b""));
    assert_eq!(doc.path, "/health");
    assert!(!log);
    let (doc, log) = serialize_request(&filter, request(None, "GET", Some("/healthz"), &[], Vec::new(), b""));
    assert_eq!(doc.path, "/healthz");
    assert!(log);
}

#[test]
fn string_map_insert_replaces() {
    let mut m = StrMap::new();
    assert_eq!(m.len(), 0);
    m.insert("a".to_string(), "1".to_string());
    m.insert("b".to_string(), "2".to_string());
    m.insert("a".to_string(), "3".to_string());
    assert_eq!(m.len(), 2);
    assert_eq!(m.get("a"), Some("3".to_string()));
    assert_eq!(m.to_pairs(), vec![("a".to_string(), "3".to_string()), ("b".to_string(), "2".to_string())]);
}

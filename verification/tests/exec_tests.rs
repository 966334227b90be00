use apix::error::ApixError;
use apix::exec::{
    apply_query, call_params, format_dry_run, read_body, request_headers, resolve_route_file,
    split_header, split_kv, substitute_params, BodySource, SourceTree,
};

#[test]
fn parses_header_key_value() {
    let (k, v) = split_header("Authorization: Bearer token").expect("header");
    assert_eq!(k, "Authorization");
    assert_eq!(v, "Bearer token");
}

#[test]
fn malformed_header_and_pair_are_parse_errors() {
    assert_eq!(
        split_header("NoColon"),
        Err(ApixError::Parse("Invalid header NoColon. Expected 'Key: Value'".to_string()))
    );
    assert_eq!(
        split_kv("novalue", "param"),
        Err(ApixError::Parse("Invalid --param value: novalue. Expected key=value".to_string()))
    );
    assert_eq!(split_kv("a=b=c", "query"), Ok(("a".to_string(), "b=c".to_string())));
}

#[test]
fn applies_query_pairs_to_url() {
    let out = apply_query(
        "https://example.com/items".to_string(),
        &["a=1".to_string(), "b=x".to_string()],
    )
    .expect("query");
    assert!(out.contains("a=1"));
    assert!(out.contains("b=x"));
}

#[test]
fn query_pairs_are_encoded_and_bad_urls_rejected() {
    let out = apply_query("https://example.com/s".to_string(), &["q=a b".to_string()]).expect("query");
    assert_eq!(out, "https://example.com/s?q=a+b");
    assert_eq!(apply_query("not a url".to_string(), &[]).unwrap(), "not a url");
    match apply_query("not a url".to_string(), &["a=1".to_string()]) {
        Err(ApixError::Parse(m)) => assert!(m.starts_with("Invalid URL not a url: ")),
        other => panic!("unexpected: {other:?}"),
    }
}

#[test]
fn path_params_are_substituted() {
    let params = call_params(vec![("id".to_string(), "item_123".to_string())], &["id=42".to_string()])
        .expect("params");
    assert_eq!(params, vec![("id".to_string(), "42".to_string())]);
    assert_eq!(
        substitute_params("https://x/items/{id}", &params).unwrap(),
        "https://x/items/42"
    );
    assert_eq!(
        substitute_params("https://x/items/{id}", &[]),
        Err(ApixError::Parse("Unresolved path parameters in URL: https://x/items/{id}".to_string()))
    );
}

#[test]
fn body_sources() {
    assert_eq!(read_body(None), BodySource::Absent);
    assert_eq!(read_body(Some("@-")), BodySource::Stdin);
    assert_eq!(read_body(Some("@body.json")), BodySource::File("body.json".to_string()));
    assert_eq!(read_body(Some("{}")), BodySource::Inline("{}".to_string()));
}

#[test]
fn headers_and_dry_run_text() {
    let hs = request_headers(Some("application/json"), &["X-A: 1".to_string()]).expect("headers");
    assert_eq!(
        hs,
        vec![
            ("Content-Type".to_string(), "application/json".to_string()),
            ("X-A".to_string(), "1".to_string())
        ]
    );
    let text = format_dry_run("GET", "https://x", ".local", &hs, Some("{}"));
    assert_eq!(text, "GET https://x [source=.local]\nContent-Type: application/json\nX-A: 1\n\n{}");
}

#[test]
fn resolves_literal_segment_to_param_directory() {
    let tree = SourceTree {
        source: ".local".to_string(),
        dirs: vec!["items".to_string(), "items/{id}".to_string()],
        files: vec!["items/{id}/GET.md".to_string()],
    };
    let parts: Vec<String> = ["items", "item_123", "GET"].iter().map(|s| s.to_string()).collect();
    let m = resolve_route_file("demo/v1/items/item_123/GET", &parts, &[tree.clone()]).expect("resolve");
    assert_eq!(m.source, ".local");
    assert_eq!(m.relative, "items/{id}/GET.md");
    assert_eq!(m.params, vec![("id".to_string(), "item_123".to_string())]);

    let other = SourceTree { source: "core".to_string(), ..tree };
    assert_eq!(
        resolve_route_file("r", &parts, &[other.clone(), other]).unwrap_err(),
        ApixError::Ambiguous(
            "Route `r` exists in multiple sources. Use --source or source-prefixed route.".to_string()
        )
    );
}

#[test]
fn key_value_argument_round_trips() {
    let (k, v) = split_kv("filter=a=b", "query").expect("pair");
    assert_eq!(k, "filter");
    assert_eq!(v, "a=b");
    let (k, v) = split_kv("empty=", "param").expect("pair");
    assert_eq!((k.as_str(), v.as_str()), ("empty", ""));
}

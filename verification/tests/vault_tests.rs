use apix::error::ApixError;
use apix::vault::frontmatter::{extract_frontmatter, Frontmatter};
use std::collections::BTreeMap;

fn parse_route_frontmatter(input: &str) -> Result<(Frontmatter, String), ApixError> {
    let (yaml, body) = extract_frontmatter(input)?;
    let map: BTreeMap<String, String> =
        serde_yaml::from_str(&yaml).map_err(|e| ApixError::Parse(format!("{e}")))?;
    Ok((
        Frontmatter {
            method: map.get("method").cloned().unwrap_or_default(),
            url: map.get("url").cloned().unwrap_or_default(),
            auth: map.get("auth").cloned(),
            content_type: map.get("content_type").cloned(),
        },
        body,
    ))
}

#[test]
fn parses_valid_frontmatter() {
    let input = r#"---
method: GET
url: https://example.com/pets/{id}
auth: Bearer
content_type: application/json
---
# Pets
"#;

    let (fm, body) = parse_route_frontmatter(input).expect("must parse");
    assert_eq!(fm.method, "GET");
    assert_eq!(fm.url, "https://example.com/pets/{id}");
    assert_eq!(fm.auth.as_deref(), Some("Bearer"));
    assert_eq!(fm.content_type.as_deref(), Some("application/json"));
    assert!(body.contains("# Pets"));
}

#[test]
fn fails_on_missing_delimiter() {
    let input = "method: GET\nurl: https://example.com";
    let err = extract_frontmatter(input).expect_err("must fail");
    match err {
        ApixError::Parse(msg) => assert!(msg.contains("delimiter")),
        _ => panic!("unexpected error variant"),
    }
}

#[test]
fn missing_end_marker_is_named() {
    let err = extract_frontmatter("---\nmethod: GET\n").expect_err("must fail");
    assert_eq!(err, ApixError::Parse("Missing frontmatter end delimiter".to_string()));
}

#[test]
fn frontmatter_split_trims_yaml_and_body() {
    let (yaml, body) = extract_frontmatter("---\n  a: 1  \n---\n\n  # Title\n").expect("split");
    assert_eq!(yaml, "a: 1");
    assert_eq!(body, "# Title\n");
}

#[test]
fn written_frontmatter_reads_back() {
    let yaml = "method: GET\nurl: https://x/y";
    let doc = format!("---\n{yaml}\n---\n  \n# Title\ntext");
    let (y, body) = extract_frontmatter(&doc).expect("frontmatter");
    assert_eq!(y, yaml);
    assert_eq!(body, "# Title\ntext");
}

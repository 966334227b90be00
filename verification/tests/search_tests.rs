use apix::search::{grep_output, match_lines, search_markdown_files};

fn file(label: &str, text: &str) -> (String, String, Vec<u8>) {
    (label.to_string(), format!("/vault/{label}"), text.as_bytes().to_vec())
}

#[test]
fn grep_finds_lines_case_insensitively_and_literally() {
    let files = vec![
        file("pets/GET.md", "# List pets\nReturns all Pets.  \nnothing here\n"),
        file("a.b/POST.md", "a.b matches literally\naxb does not\n"),
    ];
    let lines = search_markdown_files(&files, "pets", 10).expect("search");
    assert_eq!(lines, vec!["pets/GET.md:1: # List pets", "pets/GET.md:2: Returns all Pets."]);
    let lines = search_markdown_files(&files, "a.b", 10).expect("search");
    assert_eq!(lines, vec!["a.b/POST.md:1: a.b matches literally"]);
}

#[test]
fn grep_stops_at_the_limit() {
    let files = vec![file("x.md", "hit 1\nhit 2\n"), file("y.md", "hit 3\n")];
    let lines = search_markdown_files(&files, "HIT", 2).expect("search");
    assert_eq!(lines, vec!["x.md:1: hit 1", "x.md:2: hit 2"]);
    assert!(search_markdown_files(&files, "hit", 0).expect("search").is_empty());
}

#[test]
fn match_lines_are_labelled_numbered_and_trimmed() {
    let ms = vec![(3u64, "hello  \n".to_string()), (7u64, "x".to_string())];
    assert_eq!(match_lines("a.md", &ms, 1), vec!["a.md:3: hello"]);
    assert_eq!(match_lines("a.md", &ms, 5), vec!["a.md:3: hello", "a.md:7: x"]);
    assert_eq!(
        grep_output(".local", &["a.md:3: hello".to_string()]),
        vec![".local:a.md:3: hello"]
    );
}

#[test]
fn grep_stops_before_reading_past_the_limit() {
    let mut bad = b"hit 1\nhit 2\n".to_vec();
    bad.extend_from_slice(&[b'h', b'i', b't', 0xff, b'\n']);
    let files = vec![("x.md".to_string(), "/vault/x.md".to_string(), bad), file("y.md", "hit 3\n")];
    assert_eq!(search_markdown_files(&files, "hit", 1).expect("search"), vec!["x.md:1: hit 1"]);
    assert_eq!(search_markdown_files(&files, "hit", 2).is_err(), true);
    match search_markdown_files(&files, "hit", 5) {
        Err(apix::error::ApixError::Parse(m)) => assert!(m.starts_with("Search failed for /vault/x.md: "), "got {m}"),
        other => panic!("expected a search error, got {other:?}"),
    }
}

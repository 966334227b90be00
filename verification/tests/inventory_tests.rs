use apix::error::ApixError;
use apix::inventory::{
    collect_route_groups, count_routes, extract_route_summary, extract_summary_from_body,
    format_versions, format_versions_detailed, is_ignored_namespace_dir, method_order_key,
    namespace_version_detail, namespace_versions, parse_ls_target, render_namespace_version_detail,
    resolve_version_root, scan_local_inventory, source_namespaces, LsTarget, NamespaceFound,
    ResolvedVersion, VersionListing, VersionRecord,
};

#[test]
fn parses_ls_target_variants() {
    assert_eq!(parse_ls_target(None).expect("parse"), LsTarget::All);
    assert_eq!(
        parse_ls_target(Some("demo")).expect("parse"),
        LsTarget::Namespace("demo".to_string())
    );
    assert_eq!(
        parse_ls_target(Some("demo/v1")).expect("parse"),
        LsTarget::NamespaceVersion {
            namespace: "demo".to_string(),
            version: "v1".to_string(),
            path_prefix: None,
        }
    );
    assert_eq!(
        parse_ls_target(Some("too/many/parts/here")).expect("parse"),
        LsTarget::NamespaceVersion {
            namespace: "too".to_string(),
            version: "many".to_string(),
            path_prefix: Some("parts/here".to_string()),
        }
    );
}

#[test]
fn ls_target_with_one_part_is_an_error() {
    assert_eq!(
        parse_ls_target(Some("demo/")),
        Err(ApixError::Parse(
            "`apix ls` route-detail mode expects at least `<namespace>/<version>`".to_string()
        ))
    );
}

#[test]
fn summary_fallback_prefers_heading_then_body() {
    let from_heading = extract_summary_from_body("# Route title\n\nDetails");
    assert_eq!(from_heading, "Route title");

    let from_body = extract_summary_from_body("\n\nPlain first line\n| table |");
    assert_eq!(from_body, "Plain first line");

    let none = extract_summary_from_body("\n\n| a | b |\n```\ncode\n```");
    assert_eq!(none, "(no description)");
}

#[test]
fn summary_is_truncated_to_120_characters() {
    let long = "x".repeat(130);
    let s = extract_summary_from_body(&long);
    assert_eq!(s.chars().count(), 120);
    assert!(s.ends_with("..."));
    assert_eq!(extract_summary_from_body(&"y".repeat(120)), "y".repeat(120));
}

#[test]
fn summary_skips_fenced_code_and_empty_headings() {
    assert_eq!(extract_summary_from_body("```\n# not this\n```\n#\n## Real"), "Real");
}

#[test]
fn route_summary_uses_body_after_frontmatter() {
    let content = "---\nmethod: GET\nurl: http://x\n---\n# Local title\n";
    assert_eq!(extract_route_summary(content, true), "Local title");
    assert_eq!(extract_route_summary(content, false), "---");
}

#[test]
fn version_formatting_is_stable() {
    let versions = vec![
        VersionRecord {
            version: "v1".to_string(),
            route_count: 3,
        },
        VersionRecord {
            version: "v2".to_string(),
            route_count: 5,
        },
    ];
    assert_eq!(format_versions(&versions), "v1,v2");
    assert_eq!(
        format_versions_detailed(&versions),
        "v1 (routes: 3), v2 (routes: 5)"
    );
}

#[test]
fn method_order_is_get_post_put_patch_delete_options_head() {
    let keys: Vec<usize> = ["GET", "POST", "PUT", "PATCH", "DELETE", "OPTIONS", "HEAD", "TRACE"]
        .iter()
        .map(|m| method_order_key(m))
        .collect();
    assert_eq!(keys, vec![0, 1, 2, 3, 4, 5, 6, 99]);
}

#[test]
fn hidden_dirs_and_registry_are_not_namespaces() {
    assert!(is_ignored_namespace_dir(".git"));
    assert!(is_ignored_namespace_dir("registry.json"));
    assert!(!is_ignored_namespace_dir("petstore"));
    let names: Vec<String> = ["zeta", ".git", "alpha", "registry.json", "mid"]
        .iter()
        .map(|s| s.to_string())
        .collect();
    assert_eq!(source_namespaces(&names), vec!["alpha", "mid", "zeta"]);
}

#[test]
fn versions_need_metadata_and_count_route_files() {
    let listing = vec![
        VersionListing {
            name: "v2".to_string(),
            has_metadata: true,
            markdown_files: vec![
                "_metadata.md".to_string(),
                "_components/schemas/Pet.md".to_string(),
                "pets/GET.md".to_string(),
                "pets/POST.md".to_string(),
            ],
        },
        VersionListing { name: "draft".to_string(), has_metadata: false, markdown_files: vec![] },
        VersionListing {
            name: "v1".to_string(),
            has_metadata: true,
            markdown_files: vec!["a/GET.md".to_string()],
        },
    ];
    let recs = namespace_versions(&listing);
    assert_eq!(format_versions_detailed(&recs), "v1 (routes: 1), v2 (routes: 2)");
    assert_eq!(count_routes(&["_metadata.md".to_string(), "x/GET.md".to_string()]), 1);
}

#[test]
fn namespace_and_source_filters_work() {
    let v = |n: &str| VersionRecord { version: n.to_string(), route_count: 0 };
    let found = vec![
        NamespaceFound { source: ".local".to_string(), namespace: "demo".to_string(), versions: vec![v("v1")] },
        NamespaceFound { source: "core".to_string(), namespace: "demo".to_string(), versions: vec![v("v2")] },
        NamespaceFound { source: "core".to_string(), namespace: "other".to_string(), versions: vec![v("v1")] },
        NamespaceFound { source: "core".to_string(), namespace: "empty".to_string(), versions: vec![] },
    ];
    let both = scan_local_inventory(Some("demo"), found.clone());
    assert_eq!(both.len(), 2);
    assert_eq!(both[0].source, ".local");
    let all = scan_local_inventory(None, found);
    assert_eq!(all.len(), 3);
}

fn files(items: &[(&str, &str)]) -> Vec<(String, String)> {
    items.iter().map(|(a, b)| (a.to_string(), b.to_string())).collect()
}

#[test]
fn route_detail_output_is_sorted_by_path_and_method() {
    let fs = files(&[
        ("_metadata.md", "#"),
        ("beta/POST.md", "B post"),
        ("beta/GET.md", "B get"),
        ("alpha/DELETE.md", "A delete"),
        ("_components/schemas/X.md", "x"),
    ]);
    let groups = collect_route_groups(&fs);
    assert_eq!(groups.len(), 2);
    assert_eq!(groups[0].path, "alpha");
    assert_eq!(groups[1].path, "beta");
    assert_eq!(groups[1].routes[0].method, "GET");
    assert_eq!(groups[1].routes[1].method, "POST");

    let out = render_namespace_version_detail("demo", "v1", None, ".local", &fs, true).expect("render");
    assert!(out.starts_with("demo/v1 (source: .local)\n\n"));
    let get = out.find("GET: B get").expect("get");
    let post = out.find("POST: B post").expect("post");
    assert!(get < post);
    assert!(out.find("alpha").unwrap() < out.find("beta").unwrap());
}

#[test]
fn route_detail_prefix_filter_and_error() {
    let fs = files(&[("items/GET.md", "list"), ("items/{id}/GET.md", "one"), ("itemsx/GET.md", "no")]);
    let d = namespace_version_detail("demo", "v1", Some("items"), "core", &fs).expect("detail");
    assert_eq!(d.routes.len(), 2);
    let err = namespace_version_detail("demo", "v1", Some("users"), "core", &fs).unwrap_err();
    assert_eq!(
        err,
        ApixError::RouteNotFound(
            "No route markdown files found for `demo/v1/users` in source `core`".to_string()
        )
    );
}

#[test]
fn route_detail_prefers_first_source_when_not_overridden() {
    let cands = vec![
        ResolvedVersion { source: ".local".to_string(), version_root: "/h/vaults/.local/demo/v1".to_string() },
        ResolvedVersion { source: "core".to_string(), version_root: "/h/vaults/core/demo/v1".to_string() },
    ];
    let r = resolve_version_root("demo", "v1", None, cands.clone(), &[true, true]).expect("found");
    assert_eq!(r.source, ".local");
    let r = resolve_version_root("demo", "v1", None, cands.clone(), &[false, true]).expect("found");
    assert_eq!(r.source, "core");
    assert_eq!(
        resolve_version_root("demo", "v1", Some("core"), cands, &[false, false]).unwrap_err(),
        ApixError::VaultNotFound("demo/v1 not found in source `core`".to_string())
    );
}

#[test]
fn type_documents_and_other_files_are_not_routes() {
    let fs = files(&[
        ("_metadata.md", "#"),
        ("_types/Pet.md", "a type"),
        ("pets/_types/Tag.md", "a nested type"),
        ("pets/GET.md", "list"),
        ("pets/POST.md", "create"),
        ("pets/README.md", "notes"),
    ]);
    let groups = collect_route_groups(&fs);
    assert_eq!(groups.len(), 1);
    assert_eq!(groups[0].path, "pets");
    assert_eq!(groups[0].routes.len(), 2);
    assert_eq!(groups[0].routes[0].method, "GET");
    assert_eq!(groups[0].routes[1].method, "POST");
    let rels: Vec<String> = fs.iter().map(|f| f.0.clone()).collect();
    assert_eq!(count_routes(&rels), 2);
}

#[test]
fn styled_names_are_plain_or_wrapped_in_colored_styles() {
    let s = apix::output::fmt_source("core", false);
    assert!(s == "core" || s == "\x1b[4;92mcore\x1b[0m", "got {s:?}");
    let n = apix::output::fmt_namespace("pets", false);
    assert!(n == "pets" || n == "\x1b[1mpets\x1b[0m", "got {n:?}");
    assert_eq!(apix::output::fmt_method("GET", true), "GET");
}

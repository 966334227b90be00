use apix::cli::{needs_home, Commands, CompletionShell};
use apix::config::{is_legacy_namespace, Config, EnvOverrides, SourceConfig};
use apix::error::{actionable_hint, exit_code, ApixError};
use apix::vault::frontmatter::{Frontmatter, TypeFrontmatter};
use apix::vault::resolver::{
    candidate_sources, namespace_candidates, resolve_namespace, resolve_route_path, route_candidates,
    route_resolution_inputs, source_root,
};
use apix::vault::{
    extract_required_body_rows, extract_section, info_not_found, info_route, is_type_relative,
    peek_route_markdown, peek_type_markdown, render_document, route_not_found_with_hint, suggest_routes,
};

fn s(v: &[&str]) -> Vec<String> {
    v.iter().map(|x| x.to_string()).collect()
}

#[test]
fn error_messages_hints_and_exit_codes() {
    let cases = [
        (ApixError::Io("x".into()), "I/O error: x", 2),
        (ApixError::Parse("x".into()), "Parse error: x", 2),
        (ApixError::Http("x".into()), "HTTP error: x", 2),
        (ApixError::Git("x".into()), "Git error: x", 2),
        (ApixError::Config("x".into()), "Config error: x", 1),
        (ApixError::VaultNotFound("x".into()), "Vault not found: x", 1),
        (ApixError::RouteNotFound("x".into()), "Route not found: x", 1),
        (ApixError::Ambiguous("x".into()), "Ambiguous route/source: x", 1),
    ];
    for (err, msg, code) in cases {
        assert_eq!(err.message(), msg);
        assert_eq!(exit_code(&err), code);
        assert!(actionable_hint(&err).is_some());
    }
    assert_eq!(
        actionable_hint(&ApixError::VaultNotFound("missing registry.json".into())),
        Some("Run `apix update` (or `apix update --source <name>`) to fetch source metadata.")
    );
    assert_eq!(
        actionable_hint(&ApixError::VaultNotFound("pets".into())),
        Some("Run `apix update` then `apix pull <namespace>`.")
    );
}

#[test]
fn init_and_completions_need_no_home() {
    assert!(!needs_home(&Commands::Init));
    assert!(!needs_home(&Commands::Completions { shell: CompletionShell::Bash }));
    assert!(needs_home(&Commands::Ls { namespace: None, source: None }));
}

#[test]
fn home_directory_resolution() {
    assert_eq!(Config::apix_home(Some("/custom"), Some("/home/u")), Ok("/custom".to_string()));
    assert_eq!(Config::apix_home(None, Some("/home/u")), Ok("/home/u/.apix".to_string()));
    assert_eq!(
        Config::apix_home(None, None),
        Err(ApixError::Config("Unable to resolve home directory".to_string()))
    );
    assert_eq!(source_root("/h", "core"), "/h/vaults/core");
}

#[test]
fn legacy_namespaces_are_recognised() {
    let known = s(&[".local", "core", "acme"]);
    assert!(is_legacy_namespace("petstore", &known, true, false));
    assert!(!is_legacy_namespace("acme", &known, true, false));
    assert!(!is_legacy_namespace("core", &[], true, false));
    assert!(!is_legacy_namespace("petstore", &known, false, false));
    assert!(!is_legacy_namespace("petstore", &known, true, true));
}

#[test]
fn route_inputs_and_candidates() {
    let env = EnvOverrides::none();
    let mut cfg = Config::default();
    cfg.source.insert("acme".to_string(), SourceConfig { remote: "r".to_string() });
    assert_eq!(candidate_sources(&cfg, &env, None), s(&[".local", "core"]));
    assert_eq!(candidate_sources(&cfg, &env, Some("acme")), s(&["acme"]));

    let (sources, ns, ver, rest) = route_resolution_inputs("acme/pets/v1/items/GET", None, &cfg, &env).expect("inputs");
    assert_eq!((sources, ns.as_str(), ver.as_str(), rest), (s(&["acme"]), "pets", "v1", s(&["items", "GET"])));
    let (sources, ns, _, rest) = route_resolution_inputs("pets/v1/items/GET", None, &cfg, &env).expect("inputs");
    assert_eq!((sources, ns.as_str(), rest), (s(&[".local", "core"]), "pets", s(&["items", "GET"])));
    assert_eq!(
        route_resolution_inputs("pets/v1/GET", None, &cfg, &env).unwrap_err(),
        ApixError::RouteNotFound("pets/v1/GET".to_string())
    );

    let c = route_candidates("pets/v1/items/GET", None, &cfg, &env, "/h").expect("candidates");
    assert_eq!(c.len(), 2);
    assert_eq!(c[1].source, "core");
    assert_eq!(c[1].relative, "items/GET");
    assert_eq!(c[1].file_path, "/h/vaults/core/pets/v1/items/GET.md");
    assert_eq!(
        route_candidates("pets/v1", None, &cfg, &env, "/h").unwrap_err(),
        ApixError::Parse("Route must include namespace/version/path, got: pets/v1".to_string())
    );
}

fn flagged<T>(c: Vec<T>, flags: &[bool]) -> Vec<(T, bool)> {
    c.into_iter().zip(flags.iter().copied()).collect()
}

#[test]
fn route_found_in_one_source_or_several() {
    let env = EnvOverrides::none();
    let cfg = Config::default();
    let route = "pets/v1/items/GET";
    let c = || route_candidates(route, None, &cfg, &env, "/h").expect("candidates");
    let one = resolve_route_path(route, flagged(c(), &[false, true])).expect("found");
    assert_eq!(one.source, "core");
    assert_eq!(
        resolve_route_path(route, flagged(c(), &[false, false])).unwrap_err(),
        ApixError::RouteNotFound(route.to_string())
    );
    assert_eq!(
        resolve_route_path(route, flagged(c(), &[true, true])).unwrap_err(),
        ApixError::Ambiguous(
            "Route `pets/v1/items/GET` matched multiple sources: .local/pets/v1/items/GET, core/pets/v1/items/GET. Pass --source or use source-prefixed route."
                .to_string()
        )
    );
}

#[test]
fn namespace_found_in_one_source_or_several() {
    let env = EnvOverrides::none();
    let cfg = Config::default();
    let c = namespace_candidates("pets", None, &cfg, &env, "/h");
    assert_eq!(c.len(), 2);
    assert_eq!(c[0].root, "/h/vaults/.local/pets");
    let c2 = namespace_candidates("pets", None, &cfg, &env, "/h");
    let c3 = namespace_candidates("pets", None, &cfg, &env, "/h");
    assert_eq!(resolve_namespace("pets", flagged(c, &[true, false])).expect("one").source, ".local");
    assert_eq!(
        resolve_namespace("pets", flagged(c2, &[false, false])).unwrap_err(),
        ApixError::VaultNotFound("pets".to_string())
    );
    assert_eq!(
        resolve_namespace("pets", flagged(c3, &[true, true])).unwrap_err(),
        ApixError::Ambiguous(
            "Namespace `pets` exists in multiple sources: .local/pets, core/pets. Pass --source.".to_string()
        )
    );
}

#[test]
fn documents_are_shown_with_banner_and_table() {
    let entries = vec![("method".to_string(), Some("GET".to_string())), ("x".to_string(), None)];
    assert_eq!(
        render_document("core", "raw", Some((entries, "# Body".to_string()))),
        "> Source: `core`\n\n| Metadata | Value |\n| :--- | :--- |\n| method | `GET` |\n\n\n# Body"
    );
    assert_eq!(render_document(".local", "raw", None), "raw");
    assert_eq!(render_document(".local", "raw", Some((Vec::new(), "b".to_string()))), "b");
}

#[test]
fn peek_views() {
    let fm = Frontmatter {
        method: "POST".to_string(),
        url: "https://x/items".to_string(),
        auth: None,
        content_type: Some("application/json".to_string()),
    };
    let body = "# Create\n\n## Path Parameters\n\n_(None)_\n\n## Request Body\n\n| Property | Required | Type | Description |\n| :--- | :---: | :--- | :--- |\n| `name` | Yes | string |  |\n| `tag` | No | string |  |\n\n## Responses\n";
    assert_eq!(extract_section(body, "## Path Parameters"), Some("_(None)_".to_string()));
    assert_eq!(extract_section(body, "## Nothing"), None);
    assert_eq!(
        extract_required_body_rows(body),
        Some(vec!["| `name` | Yes | string |  |".to_string()])
    );
    assert_eq!(
        peek_route_markdown(".local", &fm, body),
        "| Metadata | Value |\n| :--- | :--- |\n| content_type | `application/json` |\n| method | `POST` |\n| url | `https://x/items` |\n\n## Path Parameters\n_(None)_\n\n## Required Request Body Fields\n| Property | Required | Type | Description |\n| :--- | :---: | :--- | :--- |\n| `name` | Yes | string |  |\n"
    );
    let t = TypeFrontmatter { schema_type: "object".to_string() };
    assert_eq!(
        peek_type_markdown("core", &t),
        "> Source: `core`\n\n| Metadata | Value |\n| :--- | :--- |\n| type | `object` |\n\n## Path Parameters\n*(None)*\n\n## Required Request Body Fields\n*(None)*\n"
    );
    assert!(is_type_relative("_types/Pet"));
    assert!(!is_type_relative("items/_types"));
}

#[test]
fn info_and_not_found_messages() {
    assert_eq!(info_route("pets/v1"), "pets/v1/_metadata");
    assert_eq!(
        info_not_found("pets/v2"),
        ApixError::VaultNotFound(
            "Metadata for `pets/v2` not found. Ensure the namespace and version are correct (e.g., namespace/version)."
                .to_string()
        )
    );
    assert_eq!(route_not_found_with_hint("a/b", &[]), ApixError::RouteNotFound("a/b".to_string()));
    assert_eq!(
        route_not_found_with_hint("a/b", &s(&["x", "y"])),
        ApixError::RouteNotFound("a/b. Did you mean one of: x, y".to_string())
    );
}

#[test]
fn route_suggestions() {
    let rels = s(&["items/GET.md", "users/GET.md", "items/{id}/DELETE.md", "notes.txt"]);
    assert_eq!(
        suggest_routes("pets/v1/items/POST", "core", "pets", "v1", &rels),
        s(&["core/pets/v1/items/GET", "core/pets/v1/users/GET", "core/pets/v1/items/{id}/DELETE"])
    );
    let many = s(&["a1.md", "a2.md", "a3.md", "a4.md", "a5.md", "a6.md"]);
    assert_eq!(suggest_routes("x/y/a", "core", "x", "y", &many).len(), 5);
}

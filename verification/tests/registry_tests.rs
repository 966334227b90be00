use apix::registry::{
    build_registry_from_root, is_lock_stale, is_source_stale, merge_hits, parse_last_updated,
    parse_metadata_markdown, rebuild, score_search_match, search_source, ApiEntry, ApiTable,
    NamespaceDir, RebuildTarget, Registry, SearchHit, VersionDir, format_search_row,
};
use apix::error::ApixError;
use apix::config::{Config, EnvOverrides, SourceConfig};
use apix::registry::maybe_auto_update_for_search;
use apix::registry::git::{source_add, source_remove};

#[test]
fn merge_dedupes_same_api_across_sources() {
    let hits = vec![
        SearchHit {
            source: ".local".to_string(),
            name: "petstore".to_string(),
            description: "Local".to_string(),
            versions: vec!["v1".to_string()],
            tags: vec!["local".to_string()],
            score: 80,
        },
        SearchHit {
            source: "core".to_string(),
            name: "petstore".to_string(),
            description: "Core".to_string(),
            versions: vec!["v2".to_string()],
            tags: vec!["rest".to_string()],
            score: 80,
        },
    ];
    let rank = vec![".local".to_string(), "core".to_string()];
    let merged = merge_hits(hits, &rank);
    assert_eq!(merged.len(), 1);
    let m = &merged[0];
    assert!(m.sources.contains(&".local".to_string()));
    assert!(m.sources.contains(&"core".to_string()));
    assert!(m.versions.contains(&"v1".to_string()));
    assert!(m.versions.contains(&"v2".to_string()));
}

#[test]
fn merged_rows_are_ordered_by_rank_then_score_then_name() {
    let hit = |src: &str, name: &str, score: i32| SearchHit {
        source: src.to_string(),
        name: name.to_string(),
        description: String::new(),
        versions: vec![],
        tags: vec![],
        score,
    };
    let rank = vec![".local".to_string(), "core".to_string()];
    let merged = merge_hits(
        vec![hit("core", "b", 90), hit("core", "a", 90), hit("core", "c", 100), hit(".local", "z", 30)],
        &rank,
    );
    let names: Vec<&str> = merged.iter().map(|m| m.name.as_str()).collect();
    assert_eq!(names, vec!["z", "c", "a", "b"]);
}

#[test]
fn search_scores_follow_match_strength() {
    let no_tags: Vec<String> = vec![];
    assert_eq!(score_search_match("pet", "", &no_tags, "pet"), 100);
    assert_eq!(score_search_match("my-pet", "", &no_tags, "pet"), 95);
    assert_eq!(score_search_match("petstore", "", &no_tags, "pet"), 90);
    assert_eq!(score_search_match("my-petstore", "", &no_tags, "pet"), 85);
    assert_eq!(score_search_match("carpet", "", &no_tags, "pet"), 80);
    assert_eq!(score_search_match("x", "a pet api", &no_tags, "pet"), 60);
    assert_eq!(score_search_match("x", "petstore api", &no_tags, "pet"), 55);
    assert_eq!(score_search_match("x", "carpets", &no_tags, "pet"), 50);
    assert_eq!(score_search_match("x", "", &["pet".to_string()], "pet"), 40);
    assert_eq!(score_search_match("x", "", &["pets".to_string()], "pet"), 35);
    assert_eq!(score_search_match("x", "", &["carpet".to_string()], "pet"), 30);
    assert_eq!(score_search_match("x", "y", &no_tags, "pet"), 0);
}

#[test]
fn search_source_lowercases_entries() {
    let mut apis = ApiTable::new();
    apis.insert(
        "Pet".to_string(),
        ApiEntry {
            name: "PetStore".to_string(),
            description: "Pets".to_string(),
            versions: vec!["v1".to_string()],
            tags: vec![],
        },
    );
    apis.insert(
        "other".to_string(),
        ApiEntry { name: "other".to_string(), description: "x".to_string(), versions: vec![], tags: vec![] },
    );
    let reg = Registry { apis };
    let hits = search_source("core", &reg, "pet");
    assert_eq!(hits.len(), 1);
    assert_eq!(hits[0].name, "PetStore");
    assert_eq!(hits[0].score, 90);
    assert_eq!(hits[0].source, "core");
}

#[test]
fn local_registry_rebuild_indexes_namespaces() {
    let dirs = vec![
        NamespaceDir {
            name: "pet".to_string(),
            versions: vec![VersionDir {
                name: "v1".to_string(),
                has_metadata: true,
                metadata: Some("---\nbase_url: https://x\ntags: [pet, store]\n---\n# Pet API\nPet catalog\n".to_string()),
            }],
        },
        NamespaceDir { name: ".metadata".to_string(), versions: vec![] },
        NamespaceDir {
            name: "scripts".to_string(),
            versions: vec![VersionDir { name: "x".to_string(), has_metadata: false, metadata: None }],
        },
    ];
    let reg = build_registry_from_root(&dirs, true);
    assert!(reg.apis.contains_key("pet"));
    assert!(!reg.apis.contains_key("scripts"));
    assert!(!reg.apis.contains_key(".metadata"));
    let e = reg.apis.get("pet").expect("pet");
    assert_eq!(e.versions, vec!["v1"]);
    assert_eq!(e.description, "Pet catalog");
    assert_eq!(e.tags, vec!["pet", "store", "local"]);
}

#[test]
fn metadata_title_description_and_tags() {
    let (t, d, tags) = parse_metadata_markdown("---\ntags: [a, b]\n---\n\n# Title\n\n**Version:** v1\nDesc\n");
    assert_eq!(t, "Title");
    assert_eq!(d, "Desc");
    assert_eq!(tags, Some(vec!["a".to_string(), "b".to_string()]));
}

#[test]
fn ttl_staleness_and_local_exclusion() {
    assert!(is_source_stale("core", 60, 1000, None));
    assert!(!is_source_stale("core", 60, 1000, Some(1000)));
    assert!(!is_source_stale("core", 0, 1000, None));
    assert!(!is_source_stale(".local", 60, 1000, None));
    assert!(is_source_stale("core", 60, 1000, parse_last_updated("bad-ts")));
    assert!(is_source_stale("core", 60, 1000, Some(1)));
    assert_eq!(parse_last_updated(" 42\n"), Some(42));
}

#[test]
fn stale_lock_detection_uses_timestamp() {
    assert!(is_lock_stale(1000, Some(1000 - 301)));
    assert!(!is_lock_stale(1000, Some(1000)));
    assert!(is_lock_stale(1000, None));
}

#[test]
fn rebuild_arguments() {
    assert_eq!(rebuild(None, None), Ok(RebuildTarget::Source(".local".to_string())));
    assert_eq!(rebuild(Some("core"), None), Ok(RebuildTarget::Source("core".to_string())));
    assert_eq!(rebuild(None, Some("/x")), Ok(RebuildTarget::Path("/x".to_string())));
    assert_eq!(
        rebuild(Some("core"), Some("/x")),
        Err(ApixError::Parse(
            "Use either `--source` or `--path` for `registry rebuild`, not both".to_string()
        ))
    );
}

#[test]
fn search_row_is_padded() {
    let m = apix::registry::MergedHit {
        name: "pet".to_string(),
        description: "d".to_string(),
        sources: vec!["core".to_string()],
        versions: vec!["v1".to_string(), "v2".to_string()],
        tags: vec!["a".to_string()],
        best_score: 90,
        first_source_rank: 0,
    };
    let row = format_search_row(&m);
    assert_eq!(row, format!("{:<16} {:<20} {:<32} {:<12} [{}]", "core", "pet", "d", "v1,v2", "a"));
}

#[test]
fn written_timestamp_reads_back_and_is_fresh() {
    for now in [0u64, 7, 1_700_000_000, u64::MAX] {
        let written = now.to_string();
        assert_eq!(parse_last_updated(&written), Some(now));
        assert!(!is_source_stale("core", 60, now, parse_last_updated(&written)));
    }
}

#[test]
fn local_source_is_never_auto_updated() {
    let env = EnvOverrides::none();
    let mut cfg = Config::default();
    cfg.source.insert(".local".to_string(), SourceConfig { remote: "https://x".to_string() });
    let sources = vec![".local".to_string(), "core".to_string(), "nowhere".to_string()];
    assert_eq!(maybe_auto_update_for_search(&cfg, &env, &sources, false), vec!["core".to_string()]);
    assert!(maybe_auto_update_for_search(&cfg, &env, &sources, true).is_empty());
}

#[test]
fn added_source_is_listed_until_removed() {
    let env = EnvOverrides::none();
    let mut cfg = Config::default();
    source_add("acme", "https://git.acme.com/v.git", &mut cfg).expect("add");
    assert_eq!(cfg.sources, vec![".local", "core", "acme"]);
    assert_eq!(cfg.source_remote("acme", &env).as_deref(), Some("https://git.acme.com/v.git"));
    source_remove("acme", &mut cfg).expect("remove");
    assert_eq!(cfg.sources, vec![".local", "core"]);
    assert_eq!(cfg.source_remote("acme", &env), None);
    assert!(source_add("core", "x", &mut cfg).is_err());
}

#[test]
fn name_matches_outrank_other_matches() {
    let tags = vec!["pets".to_string()];
    assert!(score_search_match("petstore", "", &[], "store") >= 80);
    assert!(score_search_match("zoo", "the pet store", &tags, "store") < 80);
    assert!(score_search_match("zoo", "the pet store", &tags, "store") > 0);
    assert!(score_search_match("zoo", "", &tags, "et") > 0);
    assert_eq!(score_search_match("zoo", "animals", &tags, "cat"), 0);
}

#[test]
fn rebuild_skips_hidden_and_unversioned_directories() {
    let dir = |name: &str, meta: bool| NamespaceDir {
        name: name.to_string(),
        versions: vec![VersionDir {
            name: "v1".to_string(),
            has_metadata: meta,
            metadata: if meta { Some("# T\n\nDesc\n".to_string()) } else { None },
        }],
    };
    let reg = build_registry_from_root(&[dir(".git", true), dir("empty", false), dir("pets", true)], false);
    assert_eq!(reg.apis.len(), 1);
    assert!(reg.apis.get("pets").is_some());
    assert!(reg.apis.get(".git").is_none());
    assert!(reg.apis.get("empty").is_none());
}

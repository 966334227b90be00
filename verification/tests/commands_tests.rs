use apix::config::{Config, EnvOverrides, SourceConfig};
use apix::error::ApixError;
use apix::inventory::{inventory_lines, namespace_detail_lines, NamespaceRecord, VersionRecord};
use apix::registry::git::{pull_namespace, restore_local_changes, source_list, sync_remote};
use apix::registry::{
    ensure_registry_exists, last_updated_path, lock_path, pick_search_sources, pull, registry_path,
    should_auto_update, update, ApiEntry, ApiTable, Registry,
};

fn s(v: &[&str]) -> Vec<String> {
    v.iter().map(|x| x.to_string()).collect()
}

fn registry() -> Registry {
    let mut apis = ApiTable::new();
    apis.insert(
        "petstore".to_string(),
        ApiEntry {
            name: "petstore".to_string(),
            description: "Pets".to_string(),
            versions: s(&["v1", "v2"]),
            tags: Vec::new(),
        },
    );
    Registry { apis }
}

#[test]
fn pull_plans_check_the_registry() {
    let reg = registry();
    assert_eq!(
        pull_namespace("petstore", "core", false, &reg).unwrap_err(),
        ApixError::Git("Source `core` not found. Run `apix update --source core` first.".to_string())
    );
    assert_eq!(
        pull_namespace("pet", "core", true, &reg).unwrap_err(),
        ApixError::VaultNotFound("Namespace `pet` not found in registry. Did you mean: petstore".to_string())
    );
    assert_eq!(
        pull_namespace("zzz", "core", true, &reg).unwrap_err(),
        ApixError::VaultNotFound("Namespace `zzz` not found in registry".to_string())
    );
    assert_eq!(
        pull_namespace("petstore/v3", "core", true, &reg).unwrap_err(),
        ApixError::VaultNotFound(
            "Version `v3` not found in namespace `petstore`. Available versions: v1, v2".to_string()
        )
    );
    let plan = pull_namespace("petstore/v1", "core", true, &reg).expect("plan");
    assert_eq!(plan.namespace, "petstore");
    assert_eq!(plan.version.as_deref(), Some("v1"));
    assert_eq!(plan.checkout_path, "petstore/v1/");
    assert_eq!(plan.description, "core/petstore/v1");
    let plan = pull_namespace("petstore", "acme", true, &reg).expect("plan");
    assert_eq!(plan.version, None);
    assert_eq!(plan.checkout_path, "petstore/");
    assert_eq!(plan.description, "acme/petstore");
}

#[test]
fn local_changes_ignore_own_files() {
    assert!(!restore_local_changes(""));
    assert!(!restore_local_changes("?? .auto-update.lock\n?? .last-updated\n  \n"));
    assert!(restore_local_changes(" M registry.json\n"));
    assert!(restore_local_changes("?? .last-updated\n?? notes.md\n"));
}

#[test]
fn remotes_and_source_listing() {
    let env = EnvOverrides::none();
    let mut cfg = Config::default();
    assert_eq!(sync_remote("core", &cfg, &env), Ok("https://github.com/apix-sh/vault.git".to_string()));
    assert_eq!(
        sync_remote("acme", &cfg, &env),
        Err(ApixError::Config("No remote configured for source `acme`".to_string()))
    );
    cfg.source.insert("acme".to_string(), SourceConfig { remote: "https://acme/v.git".to_string() });
    assert_eq!(sync_remote("acme", &cfg, &env), Ok("https://acme/v.git".to_string()));
    assert_eq!(
        source_list(&Config::default(), &env, true),
        s(&[".local       (no remote configured)", "core         https://github.com/apix-sh/vault.git"])
    );
}

#[test]
fn update_pull_and_search_sources() {
    let env = EnvOverrides::none();
    let mut cfg = Config::default();
    cfg.source.insert("acme".to_string(), SourceConfig { remote: "r".to_string() });
    cfg.source.insert("nowhere".to_string(), SourceConfig { remote: "q".to_string() });
    assert_eq!(update(None, false, &cfg, &env), s(&["core"]));
    assert_eq!(update(Some("acme"), false, &cfg, &env), s(&["acme"]));
    assert_eq!(update(None, true, &cfg, &env), s(&["core", "acme", "nowhere"]));
    assert_eq!(pull(None), "core");
    assert_eq!(pull(Some("acme")), "acme");
    assert_eq!(pick_search_sources(&cfg, &env, Some("x"), true), s(&["x"]));
    assert_eq!(pick_search_sources(&cfg, &env, None, false), s(&[".local", "core"]));
    assert_eq!(pick_search_sources(&cfg, &env, None, true), s(&[".local", "core", "acme", "nowhere"]));
}

#[test]
fn source_files_and_refresh_decisions() {
    assert_eq!(registry_path("/h", "core"), "/h/vaults/core/registry.json");
    assert_eq!(lock_path("/h", "core"), "/h/vaults/core/.auto-update.lock");
    assert_eq!(last_updated_path("/h", "core"), "/h/vaults/core/.last-updated");
    assert_eq!(ensure_registry_exists("core", "/p", true), Ok(()));
    assert_eq!(
        ensure_registry_exists("core", "/p", false),
        Err(ApixError::VaultNotFound("Source `core` is missing registry index at /p".to_string()))
    );
    assert!(should_auto_update("core", 60, 1000, true, Some(1000)));
    assert!(!should_auto_update("core", 60, 1000, false, Some(1000)));
    assert!(should_auto_update("core", 60, 1000, false, Some(900)));
}

fn record(source: &str, ns: &str, versions: &[(&str, usize)]) -> NamespaceRecord {
    NamespaceRecord {
        source: source.to_string(),
        namespace: ns.to_string(),
        versions: versions
            .iter()
            .map(|(v, n)| VersionRecord { version: v.to_string(), route_count: *n })
            .collect(),
    }
}

#[test]
fn inventory_listings() {
    let records = vec![
        record(".local", "a", &[("v1", 1)]),
        record(".local", "b", &[("v1", 1), ("v2", 3)]),
        record("core", "a", &[("v1", 2)]),
    ];
    assert_eq!(
        inventory_lines(&records, true),
        s(&[".local", "  a (v1)", "  b (v1,v2)", "core", "  a (v1)"])
    );
    let detail = vec![record(".local", "a", &[("v1", 2)]), record("core", "a", &[("v1", 0), ("v2", 1)])];
    assert_eq!(
        namespace_detail_lines(&detail, true),
        s(&[
            "a",
            "  .local     versions: v1 (routes: 2)",
            "  core       versions: v1 (routes: 0), v2 (routes: 1)",
        ])
    );
    assert!(namespace_detail_lines(&[], true).is_empty());
}

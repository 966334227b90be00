use apix::config::{parse_bool_env, Config, EnvOverrides, SourceConfig};

#[test]
fn validate_source_name_checks() {
    assert!(Config::validate_source_name("acme").is_ok());
    assert!(Config::validate_source_name("acme-dev").is_ok());

    assert!(Config::validate_source_name("").is_err());
    assert!(Config::validate_source_name("  ").is_err());
    assert!(Config::validate_source_name("acme/dev").is_err());
    assert!(Config::validate_source_name(".local").is_err());
    assert!(Config::validate_source_name("core").is_err());
}

#[test]
fn parse_bool_env_works() {
    assert_eq!(parse_bool_env("1"), Some(true));
    assert_eq!(parse_bool_env("true"), Some(true));
    assert_eq!(parse_bool_env("YES"), Some(true));
    assert_eq!(parse_bool_env("On"), Some(true));

    assert_eq!(parse_bool_env("0"), Some(false));
    assert_eq!(parse_bool_env("false"), Some(false));
    assert_eq!(parse_bool_env("NO"), Some(false));
    assert_eq!(parse_bool_env("Off"), Some(false));

    assert_eq!(parse_bool_env("invalid"), None);
    assert_eq!(parse_bool_env(""), None);
}

#[test]
fn config_defaults() {
    let cfg = Config::default();
    assert!(cfg.color);
    assert!(cfg.auto_update);
    assert_eq!(cfg.auto_update_ttl_seconds, 21600);
    assert_eq!(cfg.sources, vec![".local", "core"]);
    assert!(cfg.source.is_empty());
    assert_eq!(cfg.registry.remote, "https://github.com/apix-sh/vault.git");
}

#[test]
fn source_remote_resolution() {
    let env = EnvOverrides::none();
    let mut cfg = Config::default();
    cfg.source.insert(
        "acme".to_string(),
        SourceConfig {
            remote: "https://git.acme.com/vaults.git".to_string(),
        },
    );

    assert_eq!(
        cfg.source_remote("core", &env).unwrap(),
        "https://github.com/apix-sh/vault.git"
    );
    assert_eq!(
        cfg.source_remote("acme", &env).unwrap(),
        "https://git.acme.com/vaults.git"
    );
    assert!(cfg.source_remote("unknown", &env).is_none());
}

#[test]
fn env_overrides_for_auto_update_are_applied() {
    let cfg = Config::default();
    let env = EnvOverrides {
        sources: None,
        registry_url: None,
        auto_update: Some("0".to_string()),
        auto_update_ttl_seconds: Some("99".to_string()),
    };
    assert!(!cfg.auto_update_enabled(&env));
    assert_eq!(cfg.auto_update_ttl_seconds(&env), 99);
}

#[test]
fn invalid_env_values_fall_back_to_config() {
    let cfg = Config::default();
    let env = EnvOverrides {
        sources: None,
        registry_url: None,
        auto_update: Some("maybe".to_string()),
        auto_update_ttl_seconds: Some("-5".to_string()),
    };
    assert!(cfg.auto_update_enabled(&env));
    assert_eq!(cfg.auto_update_ttl_seconds(&env), 21600);
}

#[test]
fn registry_url_env_overrides_core_remote() {
    let cfg = Config::default();
    let env = EnvOverrides {
        sources: None,
        registry_url: Some("/tmp/mirror".to_string()),
        auto_update: None,
        auto_update_ttl_seconds: None,
    };
    assert_eq!(cfg.source_remote("core", &env).unwrap(), "/tmp/mirror");
}

#[test]
fn env_sources_override_priority() {
    let cfg = Config::default();
    let env = EnvOverrides {
        sources: Some(" acme , core ,,".to_string()),
        registry_url: None,
        auto_update: None,
        auto_update_ttl_seconds: None,
    };
    assert_eq!(cfg.source_priority(&env), vec!["acme", "core"]);
    let known = cfg.known_sources(&EnvOverrides::none());
    assert_eq!(known, vec![".local", "core"]);
}

#[test]
fn reserved_source_name_message() {
    let err = Config::validate_source_name("core").unwrap_err();
    assert_eq!(
        err,
        apix::error::ApixError::Config("Source `core` is reserved and cannot be modified".to_string())
    );
}

#[test]
fn source_table_insert_then_remove() {
    let mut cfg = Config::default();
    cfg.source.insert("a".to_string(), SourceConfig { remote: "r1".to_string() });
    cfg.source.insert("a".to_string(), SourceConfig { remote: "r2".to_string() });
    assert_eq!(cfg.source.len(), 1);
    assert_eq!(cfg.source.get("a").map(|c| c.remote.clone()), Some("r2".to_string()));
    cfg.source.remove("a");
    assert!(cfg.source.get("a").is_none());
    assert!(cfg.source.is_empty());
}

#[test]
fn known_sources_list_each_source_once() {
    let env = EnvOverrides::none();
    let mut cfg = Config::default();
    cfg.sources = vec!["core".to_string(), ".local".to_string(), "core".to_string()];
    cfg.source.insert("acme".to_string(), SourceConfig { remote: "r".to_string() });
    assert_eq!(cfg.known_sources(&env), vec!["core", ".local", "acme"]);
    cfg.sources = vec!["acme".to_string()];
    assert_eq!(cfg.known_sources(&env), vec!["acme", ".local", "core"]);
}

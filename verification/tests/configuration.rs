use workflow_engine::config::{resolve_workflow_path, AppConfig};

#[test]
fn test_default_config() {
    let config = AppConfig::default();
    assert_eq!(config.workflows.directory, "workflows");
    assert_eq!(config.server.host, "127.0.0.1");
    assert_eq!(config.server.port, 3030);
    assert!(config.runners.python.enabled);
    assert!(!config.runners.wasm.wasi_enabled);
}

#[test]
fn test_env_override() {
    let env = vec![
        ("HWFE_SERVER_PORT".to_string(), "8080".to_string()),
        ("HWFE_WORKFLOW_DIR".to_string(), "custom_workflows".to_string()),
    ];
    let mut config = AppConfig::default();
    config.apply_env_overrides(&env).unwrap();
    assert_eq!(config.server.port, 8080);
    assert_eq!(config.workflows.directory, "custom_workflows");
}

#[test]
fn bad_port_override_is_rejected() {
    let env = vec![("HWFE_SERVER_PORT".to_string(), "70000".to_string())];
    let mut config = AppConfig::default();
    let r = config.apply_env_overrides(&env);
    assert_eq!(r.unwrap_err(), "Invalid HWFE_SERVER_PORT value");
}

#[test]
fn extensions_override_splits_on_commas() {
    let env = vec![("HWFE_WORKFLOW_EXTENSIONS".to_string(), "lua,toml".to_string())];
    let mut config = AppConfig::default();
    config.apply_env_overrides(&env).unwrap();
    assert_eq!(config.workflows.extensions, vec!["lua", "toml"]);
}

#[test]
fn load_from_file_starts_from_defaults() {
    let entries = vec![("HWFE_LOG_LEVEL".to_string(), "debug".to_string())];
    let config = AppConfig::load_from_file(&entries).unwrap();
    assert_eq!(config.logging.level, "debug");
    assert_eq!(config.server.port, 3030);
}

#[test]
fn workflow_path_resolution_prefers_existing_candidates() {
    let config = AppConfig::default();
    let present = vec!["workflows/examples/demo.lua".to_string()];
    let r = resolve_workflow_path("demo.lua", &config, &present);
    assert_eq!(r, "workflows/examples/demo.lua");
    let r2 = resolve_workflow_path("workflows/x.lua", &config, &present);
    assert_eq!(r2, "workflows/x.lua");
    let r3 = resolve_workflow_path("missing.lua", &config, &present);
    assert_eq!(r3, "workflows/missing.lua");
}

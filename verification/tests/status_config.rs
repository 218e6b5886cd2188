use aperio::config::{Config, EnvVars, SyncCheck};
use aperio::status::{
    auth_status, determine_sync_status, format_duration, last_modified_text, status_view,
    vault_stats, vault_stats_checked,
};

fn no_vars() -> EnvVars {
    EnvVars {
        mcp_port: None,
        vault_dir: None,
        discovery_url: None,
        local_auth: None,
        version: None,
        sync_check: None,
        public_url: None,
        audience: None,
        issuer: None,
        required_claims: None,
        realm: None,
        scopes: None,
    }
}

fn s(v: &str) -> Option<String> {
    Some(v.to_string())
}

#[test]
fn format_duration_units() {
    assert_eq!(format_duration(0), "just now");
    assert_eq!(format_duration(59), "just now");
    assert_eq!(format_duration(60), "1m");
    assert_eq!(format_duration(3599), "59m");
    assert_eq!(format_duration(3600), "1h 0m");
    assert_eq!(format_duration(3661), "1h 1m");
    assert_eq!(format_duration(86399), "23h 59m");
    assert_eq!(format_duration(86400), "1d 0h");
    assert_eq!(format_duration(90061), "1d 1h");
    assert_eq!(format_duration(10 * 86400 + 5 * 3600 + 7 * 60), "10d 5h");
}

#[test]
fn sync_status_by_method() {
    assert_eq!(determine_sync_status(SyncCheck::File, Some(0), None), "Running");
    assert_eq!(determine_sync_status(SyncCheck::File, Some(299), None), "Running");
    assert_eq!(determine_sync_status(SyncCheck::File, Some(300), None), "Stale");
    assert_eq!(determine_sync_status(SyncCheck::File, None, Some(1)), "Unknown");
    assert_eq!(determine_sync_status(SyncCheck::Heartbeat, Some(1), Some(10)), "Running");
    assert_eq!(determine_sync_status(SyncCheck::Heartbeat, Some(1), Some(3000)), "Stale");
    assert_eq!(determine_sync_status(SyncCheck::Heartbeat, Some(1), None), "Unknown");
    assert_eq!(determine_sync_status(SyncCheck::Kubernetes, Some(1), Some(1)), "Unknown");
    assert_eq!(determine_sync_status(SyncCheck::NoCheck, Some(1), Some(1)), "Unknown");
}

#[test]
fn vault_stats_sums_counts() {
    let folders = vec![(String::new(), 3), ("Daily".to_string(), 5), ("Daily/2025".to_string(), 0)];
    assert_eq!(vault_stats(&folders), (8, 3));
    assert_eq!(vault_stats(&Vec::new()), (0, 0));
    let huge = vec![(String::new(), usize::MAX), ("x".to_string(), 1)];
    assert_eq!(vault_stats_checked(&huge), None);
}

#[test]
fn auth_status_labels() {
    assert_eq!(auth_status(true), "OIDC");
    assert_eq!(auth_status(false), "Disabled (dev)");
    assert_eq!(last_modified_text(None), "Never");
    assert_eq!(last_modified_text(Some(120)), "2m");
}

#[test]
fn config_defaults() {
    let cfg = Config::from_vars(no_vars(), std::time::Instant::now());
    assert_eq!(cfg.svc_port, "3000");
    assert_eq!(cfg.vault_dir, "/obsidian-vault");
    assert_eq!(
        cfg.discovery_url,
        "http://localhost:8081/realms/aperio/.well-known/openid-configuration"
    );
    assert!(!cfg.auth_enabled);
    assert_eq!(cfg.version, "development");
    assert!(cfg.sync_check == SyncCheck::NoCheck);
    assert_eq!(cfg.public_url, None);
    assert_eq!(cfg.required_audience, None);
    assert_eq!(cfg.required_issuer, None);
    assert!(cfg.required_claims.is_empty());
    assert_eq!(cfg.mcp_realm, "mcp");
    assert_eq!(cfg.mcp_scopes, vec!["mcp:read".to_string(), "mcp:write".to_string()]);
}

#[test]
fn config_from_set_values() {
    let mut vars = no_vars();
    vars.mcp_port = s("8080");
    vars.discovery_url = s("https://id.example.com/.well-known/openid-configuration");
    vars.sync_check = s("heartbeat");
    vars.public_url = s("");
    vars.audience = s("aperio");
    vars.issuer = s("");
    vars.required_claims = s("sub,email");
    vars.scopes = s("a,,b");
    vars.realm = s("vault");
    let cfg = Config::from_vars(vars, std::time::Instant::now());
    assert_eq!(cfg.svc_port, "8080");
    assert!(cfg.auth_enabled);
    assert!(cfg.sync_check == SyncCheck::Heartbeat);
    assert_eq!(cfg.public_url, None);
    assert_eq!(cfg.required_audience, s("aperio"));
    assert_eq!(cfg.required_issuer, None);
    assert_eq!(cfg.required_claims, vec!["sub".to_string(), "email".to_string()]);
    assert_eq!(cfg.mcp_scopes, vec!["a".to_string(), String::new(), "b".to_string()]);
    assert_eq!(cfg.mcp_realm, "vault");
}

#[test]
fn local_auth_disables_authentication() {
    let mut vars = no_vars();
    vars.discovery_url = s("https://id.example.com");
    vars.local_auth = s("true");
    assert!(!Config::from_vars(vars, std::time::Instant::now()).auth_enabled);
    let mut vars = no_vars();
    vars.discovery_url = s("https://id.example.com");
    vars.local_auth = s("TRUE");
    assert!(Config::from_vars(vars, std::time::Instant::now()).auth_enabled);
}

#[test]
fn sync_check_settings() {
    assert!(SyncCheck::from_setting(Some("file")) == SyncCheck::File);
    assert!(SyncCheck::from_setting(Some("heartbeat")) == SyncCheck::Heartbeat);
    assert!(SyncCheck::from_setting(Some("kubernetes")) == SyncCheck::Kubernetes);
    assert!(SyncCheck::from_setting(Some("File")) == SyncCheck::NoCheck);
    assert!(SyncCheck::from_setting(Some("none")) == SyncCheck::NoCheck);
    assert!(SyncCheck::from_setting(None) == SyncCheck::NoCheck);
}

#[test]
fn status_view_collects_everything() {
    let mut vars = no_vars();
    vars.sync_check = s("file");
    vars.version = s("1.2.3");
    let cfg = Config::from_vars(vars, std::time::Instant::now());
    let folders = vec![(String::new(), 2), ("Daily".to_string(), 4)];
    let v = status_view(&cfg, &folders, 3720, Some(30), None);
    assert_eq!(v.note_count, 6);
    assert_eq!(v.folder_count, 2);
    assert_eq!(v.uptime, "1h 2m");
    assert_eq!(v.last_modified, "just now");
    assert_eq!(v.vault_path, "/obsidian-vault");
    assert_eq!(v.sync_status, "Running");
    assert_eq!(v.auth_status, "Disabled (dev)");
    assert_eq!(v.version, "1.2.3");
}

use aperio::config::{Config, EnvVars};
use aperio::paths::path_less;
use aperio::tools::sort_folders;
use aperio::vault::{split_frontmatter, FrontmatterSplit, NoteSummary, VaultReader};

#[test]
fn written_frontmatter_reads_back() {
    let yaml = "\ntitle: Weekly\ntags: [a, b]";
    let body = "# Weekly\n\n- one\n- two";
    let content = format!("---{yaml}\n---\n{body}");
    match split_frontmatter(&content) {
        FrontmatterSplit::Fenced { yaml: y, body: b, .. } => {
            assert_eq!(y, yaml);
            assert_eq!(b, body);
        }
        FrontmatterSplit::Plain { .. } => panic!("expected the block back"),
    }
}

#[test]
fn trash_attempts_never_repeat() {
    let vault = VaultReader::new("/vault".to_string());
    let names: Vec<String> = (0..200).map(|k| vault.trash_candidate("notes/todo.md", k)).collect();
    for i in 0..names.len() {
        for j in 0..i {
            assert_ne!(names[i], names[j]);
        }
    }
}

#[test]
fn comma_lists_join_back() {
    let vars = EnvVars {
        mcp_port: None,
        vault_dir: None,
        discovery_url: None,
        local_auth: None,
        version: None,
        sync_check: None,
        public_url: None,
        audience: None,
        issuer: None,
        required_claims: Some("sub,,email,".to_string()),
        realm: None,
        scopes: Some("mcp:read".to_string()),
    };
    let cfg = Config::from_vars(vars, std::time::Instant::now());
    assert_eq!(cfg.required_claims.join(","), "sub,,email,");
    assert!(cfg.required_claims.iter().all(|c| !c.contains(',')));
    assert_eq!(cfg.mcp_scopes.join(","), "mcp:read");
}

#[test]
fn listings_are_ordered_throughout() {
    let vault = VaultReader::new("/v".to_string());
    let paths = ["z.md", "a/b/c.md", "a.md", "a/b.md", "B.md", "a-b.md", "a/b/c/d.md", "a b.md"];
    let found = paths
        .iter()
        .map(|p| NoteSummary { path: p.to_string(), title: String::new(), tags: Vec::new() })
        .collect();
    let listed = vault.list_notes(found);
    assert_eq!(listed.len(), paths.len());
    for i in 0..listed.len() {
        for j in (i + 1)..listed.len() {
            assert!(!path_less(&listed[j].path, &listed[i].path));
        }
    }
    let folders = sort_folders(vec![
        ("b".to_string(), 1),
        ("".to_string(), 0),
        ("a/c".to_string(), 2),
        ("a".to_string(), 3),
    ]);
    for i in 0..folders.len() {
        for j in (i + 1)..folders.len() {
            assert!(folders[i].0 <= folders[j].0);
        }
    }
}

use aperio::auth::{
    auth_challenge, authenticated_user, bearer_token, has_claim, jwks_url, resource_metadata,
    verification_outcome, AuthOutcome, AuthState, AuthStep, Claims, JwksUrlError, JwtVerifier,
};
use aperio::config::{Config, EnvVars};
use aperio::error::AperioError;
use aperio::tools::{
    render_deleted, render_folders, render_metadata, render_note, render_note_list,
    render_written, search_results, sort_folders, AperioTools, SearchCandidate,
};
use aperio::vault::{Frontmatter, Note, NoteSummary, VaultReader};

fn summary(path: &str, title: &str, tags: &[&str]) -> NoteSummary {
    NoteSummary {
        path: path.to_string(),
        title: title.to_string(),
        tags: tags.iter().map(|t| t.to_string()).collect(),
    }
}

fn config(public_url: Option<&str>, discovery: Option<&str>, claims: Option<&str>) -> Config {
    Config::from_vars(
        EnvVars {
            mcp_port: None,
            vault_dir: None,
            discovery_url: discovery.map(String::from),
            local_auth: None,
            version: None,
            sync_check: None,
            public_url: public_url.map(String::from),
            audience: None,
            issuer: None,
            required_claims: claims.map(String::from),
            realm: None,
            scopes: None,
        },
        std::time::Instant::now(),
    )
}

fn claims(sub: Option<&str>, email: Option<&str>) -> Claims {
    scoped(sub, email, Some("mcp:read mcp:write"))
}

fn scoped(sub: Option<&str>, email: Option<&str>, scope: Option<&str>) -> Claims {
    Claims {
        sub: sub.map(String::from),
        exp: 1,
        iss: None,
        aud: None,
        email: email.map(String::from),
        scope: scope.map(String::from),
    }
}

fn unauthorized_text(e: AperioError) -> String {
    match e {
        AperioError::Unauthorized(m) => m,
        _ => panic!("expected an unauthorized error"),
    }
}

fn make_verifier(claims: Option<&str>) -> JwtVerifier {
    let set: jsonwebtoken::jwk::JwkSet = serde_json::from_str(
        r#"{"keys":[
            {"kty":"oct","kid":"bad","k":"!!!"},
            {"kty":"RSA","kid":"k1","n":"AQAB","e":"AQAB"},
            {"kty":"RSA","kid":"k1","n":"!!","e":"AQAB"}
        ]}"#,
    )
    .unwrap();
    JwtVerifier::from_key_set(set, &config(None, Some("https://id"), claims))
}

const KID_K1: &str = "eyJhbGciOiJSUzI1NiIsInR5cCI6IkpXVCIsImtpZCI6ImsxIn0";
const NO_KID: &str = "eyJhbGciOiJSUzI1NiIsInR5cCI6IkpXVCJ9";
const KID_K9: &str = "eyJhbGciOiJSUzI1NiIsInR5cCI6IkpXVCIsImtpZCI6Ims5In0";
const KID_BAD: &str = "eyJhbGciOiJSUzI1NiIsInR5cCI6IkpXVCIsImtpZCI6ImJhZCJ9";
const PAYLOAD: &str = "eyJzdWIiOiJ1IiwiZXhwIjoxfQ";

fn token(header: &str) -> String {
    format!("{header}.{PAYLOAD}.c2ln")
}

#[test]
fn note_list_reply() {
    let notes = vec![summary("a.md", "A", &[]), summary("d/b.md", "B", &["x", "y"])];
    assert_eq!(
        render_note_list(&notes),
        "# Notes\n\n- **A** — `a.md`\n- **B** — `d/b.md` `x`, `y`\n"
    );
    assert_eq!(render_note_list(&Vec::new()), "No notes found.");
}

#[test]
fn note_reply_with_frontmatter() {
    let note = Note {
        path: "a.md".to_string(),
        title: "T".to_string(),
        content: "Body".to_string(),
        frontmatter: Some(Frontmatter {
            title: Some("T".to_string()),
            tags: vec!["a".to_string(), "b".to_string()],
            extra: serde_json::Value::Null,
        }),
    };
    assert_eq!(render_note(&note), "---\ntitle: T\ntags: [a, b]\n---\n\nBody");
    let plain = Note { path: "b.md".to_string(), title: "b".to_string(), content: "x".to_string(), frontmatter: None };
    assert_eq!(render_note(&plain), "x");
    let empty_fm = Note {
        path: "c.md".to_string(),
        title: "c".to_string(),
        content: "y".to_string(),
        frontmatter: Some(Frontmatter { title: None, tags: Vec::new(), extra: serde_json::Value::Null }),
    };
    assert_eq!(render_note(&empty_fm), "---\n---\n\ny");
}

#[test]
fn search_reply_is_case_insensitive() {
    let candidates = vec![
        SearchCandidate { summary: summary("a.md", "Alpha", &[]), body: Some("nothing here".to_string()) },
        SearchCandidate { summary: summary("b.md", "Beta", &[]), body: Some("About RUST".to_string()) },
        SearchCandidate { summary: summary("c.md", "Rusty title", &[]), body: Some("x".to_string()) },
        SearchCandidate { summary: summary("d.md", "D", &["Rust-lang"]), body: Some("x".to_string()) },
        SearchCandidate { summary: summary("e.md", "rust", &[]), body: None },
    ];
    assert_eq!(
        search_results("Rust", candidates),
        "# Search results for 'rust'\n\n- **Beta** — `b.md`\n- **Rusty title** — `c.md`\n- **D** — `d.md`\n"
    );
    let none = vec![SearchCandidate { summary: summary("a.md", "A", &[]), body: Some("b".to_string()) }];
    assert_eq!(search_results("ZZ", none), "No notes matching 'zz'");
    let accents = vec![SearchCandidate { summary: summary("é.md", "É", &[]), body: Some("ÄRGER".to_string()) }];
    assert_eq!(search_results("äRg", accents), "# Search results for 'ärg'\n\n- **É** — `é.md`\n");
}

#[test]
fn folder_reply_is_sorted() {
    let folders = vec![("Daily".to_string(), 3), (String::new(), 1), ("Archive".to_string(), 0)];
    assert_eq!(
        render_folders(folders),
        "# Vault Folders\n\n- **/** — 1 notes\n- **Archive** — 0 notes\n- **Daily** — 3 notes\n"
    );
    let sorted = sort_folders(vec![("b".to_string(), 1), ("a/b".to_string(), 2), ("a".to_string(), 3)]);
    let names: Vec<&str> = sorted.iter().map(|f| f.0.as_str()).collect();
    assert_eq!(names, vec!["a", "a/b", "b"]);
}

#[test]
fn write_delete_metadata_replies() {
    let note = Note { path: "x/y.md".to_string(), title: "Y".to_string(), content: String::new(), frontmatter: None };
    assert_eq!(render_written(&note), "Note 'Y' written to `x/y.md`");
    assert_eq!(render_deleted(".trash/y_1.md"), "Note moved to `.trash/y_1.md`");
    assert_eq!(
        render_metadata(&summary("a.md", "A", &[])),
        "# Metadata for `a.md`\n\n- **Title:** A\n- **Tags:** (none)\n"
    );
    assert_eq!(
        render_metadata(&summary("a.md", "A", &["p", "q"])),
        "# Metadata for `a.md`\n\n- **Title:** A\n- **Tags:** `p`, `q`\n"
    );
}

#[test]
fn tools_hold_their_vault() {
    let tools = AperioTools::new(VaultReader::new("/v".to_string()));
    assert_eq!(tools.vault().root(), "/v");
}

#[test]
fn claims_present() {
    let c = claims(Some("u"), None);
    assert!(has_claim(&c, "sub"));
    assert!(!has_claim(&c, "email"));
    assert!(!has_claim(&c, "aud"));
    assert!(!has_claim(&c, "iss"));
    assert!(has_claim(&c, "exp"));
    assert!(!has_claim(&c, "name"));
}

#[test]
fn required_claims_are_checked_in_order() {
    let v = make_verifier(Some("email,sub"));
    let err = v.check_claims(Ok(claims(None, None))).err().unwrap();
    assert_eq!(unauthorized_text(err), "Missing required claim: email");
    let err = v.check_claims(Ok(claims(None, Some("e@x")))).err().unwrap();
    assert_eq!(unauthorized_text(err), "Missing required claim: sub");
    let ok = v.check_claims(Ok(claims(Some("u"), Some("e@x")))).ok().unwrap();
    assert_eq!(ok.sub.as_deref(), Some("u"));
    let err = v.check_claims(Err("ExpiredSignature".to_string())).err().unwrap();
    assert_eq!(unauthorized_text(err), "Token validation failed: ExpiredSignature");
}

#[test]
fn decoding_key_picks_key_by_kid() {
    let v = make_verifier(None);
    assert!(v.decoding_key(&token(KID_K1)).is_ok());
    let err = v.decoding_key(&token(NO_KID)).err().unwrap();
    assert_eq!(unauthorized_text(err), "Token missing kid header");
    let err = v.decoding_key(&token(KID_K9)).err().unwrap();
    assert_eq!(unauthorized_text(err), "No matching key for kid: k9");
    let err = v.decoding_key(&token(KID_BAD)).err().unwrap();
    assert!(unauthorized_text(err).starts_with("Failed to create decoding key: "));
    let err = v.decoding_key("not a token").err().unwrap();
    assert!(unauthorized_text(err).starts_with("Invalid token header: "));
}

#[test]
fn bearer_tokens() {
    assert_eq!(bearer_token(Some("Bearer abc")), Some("abc".to_string()));
    assert_eq!(bearer_token(Some("Bearer ")), Some(String::new()));
    assert_eq!(bearer_token(Some("bearer abc")), None);
    assert_eq!(bearer_token(Some("Basic abc")), None);
    assert_eq!(bearer_token(None), None);
}

#[test]
fn auth_steps() {
    let off = AuthState { verifier: None };
    assert!(matches!(off.step(None), AuthStep::Pass));
    let on = AuthState { verifier: Some(make_verifier(None)) };
    assert!(matches!(on.step(None), AuthStep::Challenge));
    assert!(matches!(on.step(Some("Token x")), AuthStep::Challenge));
    match on.step(Some("Bearer t.k.n")) {
        AuthStep::Verify(_, t) => assert_eq!(t, "t.k.n"),
        _ => panic!("expected a token to verify"),
    }
    let user = authenticated_user(claims(None, Some("e@x")));
    assert_eq!(user.sub, "");
    assert_eq!(user.email.as_deref(), Some("e@x"));
}

#[test]
fn challenges() {
    let cfg = config(None, None, None);
    let c = auth_challenge(&cfg, Some("vault.example.com"), None);
    assert_eq!(c.resource_metadata, "http://vault.example.com/.well-known/oauth-protected-resource");
    assert_eq!(
        c.www_authenticate,
        "Bearer realm=\"mcp\", resource_metadata=\"http://vault.example.com/.well-known/oauth-protected-resource\""
    );
    assert_eq!(c.error, "unauthorized");
    assert_eq!(
        c.error_description,
        "Valid authentication token required. See WWW-Authenticate header for details."
    );
    let c = auth_challenge(&cfg, None, Some("unauthorized: Token missing kid header"));
    assert_eq!(c.resource_metadata, "http://localhost/.well-known/oauth-protected-resource");
    assert_eq!(c.error_description, "Token verification failed: unauthorized: Token missing kid header");
    let public = config(Some("https://aperio.example.com"), None, None);
    let c = auth_challenge(&public, Some("ignored"), None);
    assert_eq!(c.resource_metadata, "https://aperio.example.com/.well-known/oauth-protected-resource");
}

#[test]
fn protected_resource_metadata_document() {
    let cfg = config(
        None,
        Some("https://kc.example.com/realms/aperio/.well-known/openid-configuration//"),
        None,
    );
    let m = resource_metadata(&cfg, Some("h:3000"));
    assert_eq!(m.resource, "http://h:3000");
    assert_eq!(m.authorization_server, "https://kc.example.com/realms/aperio");
    let plain = config(None, Some("https://kc.example.com/realms/x///"), None);
    assert_eq!(resource_metadata(&plain, None).authorization_server, "https://kc.example.com/realms/x");
}

#[test]
fn jwks_urls() {
    assert_eq!(jwks_url(Some("\"HTTPS://Example.COM/certs\"".to_string())), Ok("https://example.com/certs".to_string()));
    assert_eq!(jwks_url(Some("\"https://example.com\"".to_string())), Ok("https://example.com/".to_string()));
    assert_eq!(jwks_url(None), Err(JwksUrlError::MissingUri));
    assert_eq!(jwks_url(Some("\"not a url\"".to_string())), Err(JwksUrlError::InvalidUrl));
}

#[test]
fn error_status_and_messages() {
    let e = AperioError::Unauthorized("x".to_string());
    assert_eq!(e.status_code(), 401);
    assert_eq!(e.message(), "unauthorized: x");
    assert_eq!(AperioError::Forbidden("f".to_string()).status_code(), 403);
    assert_eq!(AperioError::NotFound("n".to_string()).message(), "not found: n");
    assert_eq!(AperioError::BadRequest("b".to_string()).status_code(), 400);
    assert_eq!(AperioError::Conflict("c".to_string()).status_code(), 409);
    assert_eq!(AperioError::Sync("s".to_string()).status_code(), 502);
    assert_eq!(AperioError::Sync("s".to_string()).message(), "sync error: s");
    assert_eq!(AperioError::Vault("v".to_string()).status_code(), 500);
    let internal = AperioError::Internal(anyhow::Error::msg("boom"));
    assert_eq!(internal.status_code(), 500);
    assert_eq!(internal.message(), "internal error: boom");
}

#[test]
fn required_scopes_are_checked_in_order() {
    let v = make_verifier(None);
    let err = v.check_claims(Ok(scoped(Some("u"), None, None))).err().unwrap();
    assert_eq!(unauthorized_text(err), "Missing required scope: mcp:read");
    let err = v.check_claims(Ok(scoped(Some("u"), None, Some("openid mcp:read")))).err().unwrap();
    assert_eq!(unauthorized_text(err), "Missing required scope: mcp:write");
    let err = v.check_claims(Ok(scoped(Some("u"), None, Some("mcp:readmcp:write")))).err().unwrap();
    assert_eq!(unauthorized_text(err), "Missing required scope: mcp:read");
    let ok = v.check_claims(Ok(scoped(Some("u"), None, Some("openid mcp:write mcp:read")))).ok().unwrap();
    assert_eq!(ok.scope.as_deref(), Some("openid mcp:write mcp:read"));
}

#[test]
fn missing_claims_are_named_before_scopes() {
    let v = make_verifier(Some("email"));
    let err = v.check_claims(Ok(scoped(Some("u"), None, None))).err().unwrap();
    assert_eq!(unauthorized_text(err), "Missing required claim: email");
}

#[test]
fn decoding_key_is_the_first_with_the_kid() {
    let v = make_verifier(None);
    let key = v.decoding_key(&token(KID_K1)).ok().unwrap();
    assert_eq!(key.index(), 1);
}

#[test]
fn outcome_of_a_checked_token() {
    match verification_outcome(Ok(claims(Some("u"), Some("e@x")))) {
        AuthOutcome::Admit(user) => {
            assert_eq!(user.sub, "u");
            assert_eq!(user.email.as_deref(), Some("e@x"));
        }
        AuthOutcome::Refuse(_) => panic!("expected the caller to be admitted"),
    }
    match verification_outcome(Err(AperioError::Unauthorized("Token missing kid header".to_string()))) {
        AuthOutcome::Refuse(m) => assert_eq!(m, "unauthorized: Token missing kid header"),
        AuthOutcome::Admit(_) => panic!("expected a refusal"),
    }
}

#[test]
fn folders_of_equal_names_keep_their_order() {
    let folders = vec![("b".to_string(), 1), ("a".to_string(), 2), ("b".to_string(), 3)];
    assert_eq!(
        render_folders(folders),
        "# Vault Folders\n\n- **a** — 2 notes\n- **b** — 1 notes\n- **b** — 3 notes\n"
    );
}

#[test]
fn verifier_validation_settings() {
    let set: jsonwebtoken::jwk::JwkSet = serde_json::from_str(r#"{"keys":[]}"#).unwrap();
    let plain = JwtVerifier::from_key_set(set.clone(), &config(None, Some("https://id"), None));
    let v = plain.validation();
    assert_eq!(v.leeway, 30);
    assert!(!v.validate_aud);
    assert!(v.aud.is_none());
    assert!(v.iss.is_none());
    assert_eq!(v.algorithms, vec![jsonwebtoken::Algorithm::RS256]);
    assert!(v.validate_exp);

    let mut cfg = config(None, Some("https://id"), None);
    cfg.required_audience = Some("aperio".to_string());
    cfg.required_issuer = Some("https://id/realm".to_string());
    let strict = JwtVerifier::from_key_set(set, &cfg);
    let v = strict.validation();
    assert_eq!(v.leeway, 30);
    assert!(v.validate_aud);
    let aud: Vec<&String> = v.aud.as_ref().unwrap().iter().collect();
    assert_eq!(aud, vec!["aperio"]);
    let iss: Vec<&String> = v.iss.as_ref().unwrap().iter().collect();
    assert_eq!(iss, vec!["https://id/realm"]);
}

#[test]
fn unusable_key_error_is_the_key_libraries_error() {
    let v = make_verifier(None);
    let jwk: jsonwebtoken::jwk::Jwk =
        serde_json::from_str(r#"{"kty":"oct","kid":"bad","k":"!!!"}"#).unwrap();
    let expected = jsonwebtoken::DecodingKey::from_jwk(&jwk).err().unwrap().to_string();
    let err = v.decoding_key(&token(KID_BAD)).err().unwrap();
    assert_eq!(unauthorized_text(err), format!("Failed to create decoding key: {expected}"));
}

#[test]
fn required_audience_and_issuer_make_their_claims_required() {
    let set: jsonwebtoken::jwk::JwkSet = serde_json::from_str(r#"{"keys":[]}"#).unwrap();
    let mut cfg = config(None, Some("https://id"), Some("sub"));
    cfg.required_audience = Some("aperio".to_string());
    cfg.required_issuer = Some("https://id/realm".to_string());
    let v = JwtVerifier::from_key_set(set, &cfg);
    let err = v.check_claims(Ok(claims(Some("u"), None))).err().unwrap();
    assert_eq!(unauthorized_text(err), "Missing required claim: aud");
    let mut c = claims(Some("u"), None);
    c.aud = Some(serde_json::Value::String("aperio".to_string()));
    let err = v.check_claims(Ok(c)).err().unwrap();
    assert_eq!(unauthorized_text(err), "Missing required claim: iss");
    let mut c = claims(Some("u"), None);
    c.aud = Some(serde_json::Value::String("aperio".to_string()));
    c.iss = Some("https://id/realm".to_string());
    assert!(v.check_claims(Ok(c)).is_ok());
}

//! The server's configuration, derived from its environment variables.
use vstd::prelude::*;
use crate::text::{chars_of, join_spec, split_char, split_spec, views};

verus! {

/// `std::time::Instant`, carried through as an opaque value.
#[verifier::external_type_specification]
#[verifier::external_body]
pub struct ExInstant(std::time::Instant);

/// How the status page judges whether the vault is being synchronised.
#[derive(PartialEq, Eq, Structural, Clone, Copy, Debug)]
pub enum SyncCheck {
    NoCheck,
    File,
    Heartbeat,
    Kubernetes,
}

/// The method `SYNC_CHECK` names: `file`, `heartbeat` or `kubernetes`; any other
/// value, or none, selects no check.
pub open spec fn sync_check_spec(value: Option<Seq<char>>) -> SyncCheck {
    match value {
        Some(v) => if v == "file"@ {
            SyncCheck::File
        } else if v == "heartbeat"@ {
            SyncCheck::Heartbeat
        } else if v == "kubernetes"@ {
            SyncCheck::Kubernetes
        } else {
            SyncCheck::NoCheck
        },
        None => SyncCheck::NoCheck,
    }
}

/// An optional text's view.
pub open spec fn opt_view(o: Option<String>) -> Option<Seq<char>> {
    match o {
        Some(s) => Some(s@),
        None => None,
    }
}

impl SyncCheck {
    /// The method named by the value of `SYNC_CHECK`, if it is set.
    pub fn from_setting(value: Option<&str>) -> (r: SyncCheck)
        ensures
            r == sync_check_spec(match value {
                Some(v) => Some(v@),
                None => None,
            }),
    {
        match value {
            Some(v) => {
                let v = v.to_string();
                if v == "file".to_string() {
                    SyncCheck::File
                } else if v == "heartbeat".to_string() {
                    SyncCheck::Heartbeat
                } else if v == "kubernetes".to_string() {
                    SyncCheck::Kubernetes
                } else {
                    SyncCheck::NoCheck
                }
            },
            None => SyncCheck::NoCheck,
        }
    }
}

/// The environment variables the server reads, each `None` where it is unset
/// or not Unicode.
pub struct EnvVars {
    /// `MCP_PORT`
    pub mcp_port: Option<String>,
    /// `OBSIDIAN_VAULT_DIR`
    pub vault_dir: Option<String>,
    /// `OIDC_ISSUER_URL`: the OIDC discovery URL
    pub discovery_url: Option<String>,
    /// `LOCAL_AUTH`
    pub local_auth: Option<String>,
    /// `APERIO_VERSION`
    pub version: Option<String>,
    /// `SYNC_CHECK`
    pub sync_check: Option<String>,
    /// `PUBLIC_URL`
    pub public_url: Option<String>,
    /// `OIDC_AUDIENCE`
    pub audience: Option<String>,
    /// `OIDC_ISSUER`
    pub issuer: Option<String>,
    /// `OIDC_REQUIRED_CLAIMS`
    pub required_claims: Option<String>,
    /// `MCP_REALM`
    pub realm: Option<String>,
    /// `MCP_SCOPES`
    pub scopes: Option<String>,
}

/// The server's configuration.
pub struct Config {
    pub discovery_url: String,
    pub vault_dir: String,
    pub svc_port: String,
    pub auth_enabled: bool,
    pub started_at: std::time::Instant,
    pub version: String,
    pub sync_check: SyncCheck,
    pub public_url: Option<String>,
    pub required_audience: Option<String>,
    pub required_issuer: Option<String>,
    pub required_claims: Vec<String>,
    pub mcp_realm: String,
    pub mcp_scopes: Vec<String>,
}

/// A value, or `default` where it is unset.
pub open spec fn or_default(v: Option<String>, default: Seq<char>) -> Seq<char> {
    match v {
        Some(s) => s@,
        None => default,
    }
}

/// A value that is set and not empty.
pub open spec fn non_empty(v: Option<String>) -> Option<Seq<char>> {
    match v {
        Some(s) => if s@.len() > 0 { Some(s@) } else { None },
        None => None,
    }
}

/// A comma-separated list that is set and not empty, split at its commas.
pub open spec fn comma_list(v: Option<String>, default: Seq<Seq<char>>) -> Seq<Seq<char>> {
    match non_empty(v) {
        Some(s) => split_spec(s, ','),
        None => default,
    }
}

/// Authentication is on where a discovery URL is given and `LOCAL_AUTH` is not `true`.
pub open spec fn auth_enabled_spec(vars: EnvVars) -> bool {
    vars.discovery_url is Some && opt_view(vars.local_auth) != Some("true"@)
}

/// Whether `cfg` is the configuration that `vars` describe.
pub open spec fn config_from_spec(vars: EnvVars, cfg: Config) -> bool {
    &&& cfg.svc_port@ == or_default(vars.mcp_port, "3000"@)
    &&& cfg.vault_dir@ == or_default(vars.vault_dir, "/obsidian-vault"@)
    &&& cfg.discovery_url@ == or_default(
        vars.discovery_url,
        "http://localhost:8081/realms/aperio/.well-known/openid-configuration"@,
    )
    &&& cfg.auth_enabled == auth_enabled_spec(vars)
    &&& cfg.version@ == or_default(vars.version, "development"@)
    &&& cfg.sync_check == sync_check_spec(opt_view(vars.sync_check))
    &&& opt_view(cfg.public_url) == non_empty(vars.public_url)
    &&& opt_view(cfg.required_audience) == non_empty(vars.audience)
    &&& opt_view(cfg.required_issuer) == non_empty(vars.issuer)
    &&& views(cfg.required_claims@) == comma_list(vars.required_claims, Seq::empty())
    &&& cfg.mcp_realm@ == or_default(vars.realm, "mcp"@)
    &&& views(cfg.mcp_scopes@) == comma_list(vars.scopes, seq!["mcp:read"@, "mcp:write"@])
}

/// `v`, or `default` where it is unset.
fn value_or(v: Option<String>, default: &str) -> (r: String)
    ensures
        r@ == or_default(v, default@),
{
    match v {
        Some(s) => s,
        None => default.to_string(),
    }
}

/// `v` where it is set and not empty.
fn filter_empty(v: Option<String>) -> (r: Option<String>)
    ensures
        opt_view(r) == non_empty(v),
{
    match v {
        Some(s) => if !s.as_str().is_empty() {
            Some(s)
        } else {
            None
        },
        None => None,
    }
}

/// A comma-separated list, split at its commas where it is set and not empty.
fn list_or(v: Option<String>, default: Vec<String>) -> (r: Vec<String>)
    ensures
        views(r@) == comma_list(v, views(default@)),
{
    match filter_empty(v) {
        Some(s) => {
            let cs = chars_of(s.as_str());
            split_char(&cs, ',')
        },
        None => default,
    }
}

impl Config {
    /// The configuration described by the environment variables `vars`, with
    /// the server's start time.
    pub fn from_vars(vars: EnvVars, started_at: std::time::Instant) -> (cfg: Config)
        ensures
            config_from_spec(vars, cfg),
            cfg.started_at == started_at,
    {
        let ghost v = vars;
        let local_auth_true = match &vars.local_auth {
            Some(s) => *s == "true".to_string(),
            None => false,
        };
        let auth_enabled = vars.discovery_url.is_some() && !local_auth_true;
        let sync_check = match &vars.sync_check {
            Some(s) => SyncCheck::from_setting(Some(s.as_str())),
            None => SyncCheck::from_setting(None),
        };
        let mut default_scopes: Vec<String> = Vec::new();
        default_scopes.push("mcp:read".to_string());
        default_scopes.push("mcp:write".to_string());
        assert(views(default_scopes@) == seq!["mcp:read"@, "mcp:write"@]);
        let no_claims: Vec<String> = Vec::new();
        assert(views(no_claims@) == Seq::<Seq<char>>::empty());
        let cfg = Config {
            svc_port: value_or(vars.mcp_port, "3000"),
            vault_dir: value_or(vars.vault_dir, "/obsidian-vault"),
            discovery_url: value_or(
                vars.discovery_url,
                "http://localhost:8081/realms/aperio/.well-known/openid-configuration",
            ),
            auth_enabled,
            started_at,
            version: value_or(vars.version, "development"),
            sync_check,
            public_url: filter_empty(vars.public_url),
            required_audience: filter_empty(vars.audience),
            required_issuer: filter_empty(vars.issuer),
            required_claims: list_or(vars.required_claims, no_claims),
            mcp_realm: value_or(vars.realm, "mcp"),
            mcp_scopes: list_or(vars.scopes, default_scopes),
        };
        cfg
    }
}

} // verus!

verus! {

/// A comma-separated setting comes back when its list is joined with commas,
/// and no item of the list holds a comma.
pub proof fn lemma_comma_list_round_trip(v: Option<String>, default: Seq<Seq<char>>)
    requires
        non_empty(v) is Some,
    ensures
        join_spec(comma_list(v, default), seq![',']) == non_empty(v)->0,
        forall|i: int, j: int|
            0 <= i < comma_list(v, default).len() && 0 <= j < comma_list(v, default)[i].len()
                ==> #[trigger] comma_list(v, default)[i][j] != ',',
{
    let s = non_empty(v)->0;
    crate::text::lemma_join_split(s, ',');
    crate::text::lemma_split_pieces_exclude(s, ',');
}

/// The required claims and scopes of a configuration, joined with commas,
/// give back the settings they were read from, where those are set and not
/// empty.
pub proof fn lemma_config_lists_round_trip(vars: EnvVars, cfg: Config)
    requires
        config_from_spec(vars, cfg),
    ensures
        non_empty(vars.required_claims) matches Some(s) ==> join_spec(
            views(cfg.required_claims@),
            seq![','],
        ) == s,
        non_empty(vars.scopes) matches Some(s) ==> join_spec(views(cfg.mcp_scopes@), seq![','])
            == s,
{
    if non_empty(vars.required_claims) is Some {
        lemma_comma_list_round_trip(vars.required_claims, Seq::empty());
    }
    if non_empty(vars.scopes) is Some {
        lemma_comma_list_round_trip(vars.scopes, seq!["mcp:read"@, "mcp:write"@]);
    }
}

} // verus!

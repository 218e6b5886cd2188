//! Bearer-token authentication against an OIDC provider's keys.
//!
//! Checking a token happens in three steps: `JwtVerifier::decoding_key` reads
//! the token's header and picks the provider's key it names; the token's
//! signature and standard claims are then checked against that key, under
//! `JwtVerifier::validation`, and decoded into `Claims` by the caller;
//! `JwtVerifier::check_claims` finally applies the claims and scopes this
//! server requires.
use vstd::prelude::*;
use crate::config::{opt_view, Config};
use crate::error::{message_spec, AperioError};
use crate::keys::{
    decoding_key_at, jwk_errors, jwk_key_ids, jwk_usable, key_count, key_id_at, SelectedKey,
};
use crate::text::{
    chars_of, copy_range, push_str, remove_char, remove_char_spec, split_char, split_spec,
    starts_with, starts_with_spec, string_from_chars, views,
};
use crate::validation::{
    rs256_validation, set_audience, set_issuer, set_leeway, set_validate_aud,
    validation_audience, validation_checks_audience, validation_issuer, validation_leeway,
    validation_rs256_rest,
};

verus! {

/// The authenticated caller of a request.
#[derive(Clone)]
pub struct AuthUser {
    pub sub: String,
    pub email: Option<String>,
}

/// The claims of a token this server reads.
pub struct Claims {
    pub sub: Option<String>,
    pub exp: usize,
    pub iss: Option<String>,
    pub aud: Option<serde_json::Value>,
    pub email: Option<String>,
    /// The OAuth `scope` claim: the granted scopes, separated by spaces.
    pub scope: Option<String>,
}

/// The name for what `jsonwebtoken::decode_header` finds in a token: the
/// header's `kid`, or the text of the error that decoding the header gave.
pub uninterp spec fn spec_header_key_id(token: Seq<char>) -> Result<Option<Seq<char>>, Seq<char>>;

/// Calls `jsonwebtoken::decode_header` and keeps the header's `kid`; an error
/// is written by `Display`.
#[verifier::external_body]
fn header_key_id(token: &str) -> (r: Result<Option<String>, String>)
    ensures
        match r {
            Ok(k) => spec_header_key_id(token@) == Ok::<Option<Seq<char>>, Seq<char>>(opt_view(k)),
            Err(e) => spec_header_key_id(token@) == Err::<Option<Seq<char>>, Seq<char>>(e@),
        },
{
    jsonwebtoken::decode_header(token).map(|h| h.kid).map_err(|e| e.to_string())
}

/// Checks bearer tokens against an OIDC provider's keys.
pub struct JwtVerifier {
    key_set: jsonwebtoken::jwk::JwkSet,
    validation: jsonwebtoken::Validation,
    required_claims: Vec<String>,
    required_scopes: Vec<String>,
}

/// Whether a token's claims carry the claim `name`: `exp` always does, `sub`,
/// `email`, `aud` and `iss` where present, and no other claim does.
pub open spec fn has_claim_spec(c: Claims, name: Seq<char>) -> bool {
    if name == "sub"@ {
        c.sub is Some
    } else if name == "email"@ {
        c.email is Some
    } else if name == "aud"@ {
        c.aud is Some
    } else if name == "iss"@ {
        c.iss is Some
    } else if name == "exp"@ {
        true
    } else {
        false
    }
}

/// Whether `claims` carry the claim named `name`.
pub fn has_claim(claims: &Claims, name: &str) -> (b: bool)
    ensures
        b == has_claim_spec(*claims, name@),
{
    let n = name.to_string();
    if n == "sub".to_string() {
        claims.sub.is_some()
    } else if n == "email".to_string() {
        claims.email.is_some()
    } else if n == "aud".to_string() {
        claims.aud.is_some()
    } else if n == "iss".to_string() {
        claims.iss.is_some()
    } else if n == "exp".to_string() {
        true
    } else {
        false
    }
}

/// The first of the required claims that `c` lacks.
pub open spec fn first_missing(c: Claims, required: Seq<Seq<char>>) -> Option<Seq<char>>
    decreases required.len(),
{
    if required.len() == 0 {
        None
    } else if !has_claim_spec(c, required[0]) {
        Some(required[0])
    } else {
        first_missing(c, required.drop_first())
    }
}

/// The scopes a token grants: its `scope` claim split at spaces, or none.
pub open spec fn granted_scopes(c: Claims) -> Seq<Seq<char>> {
    match c.scope {
        Some(s) => split_spec(s@, ' '),
        None => Seq::empty(),
    }
}

/// The first of the required scopes that `c` does not grant.
pub open spec fn first_missing_scope(c: Claims, required: Seq<Seq<char>>) -> Option<Seq<char>>
    decreases required.len(),
{
    if required.len() == 0 {
        None
    } else if !granted_scopes(c).contains(required[0]) {
        Some(required[0])
    } else {
        first_missing_scope(c, required.drop_first())
    }
}

/// An `Unauthorized` error whose message is `m`.
pub open spec fn unauthorized_with(r: AperioError, m: Seq<char>) -> bool {
    r matches AperioError::Unauthorized(x) && x@ == m
}

/// Whether some key of `ids` has the id `kid`, and the first such.
pub open spec fn is_first_key(ids: Seq<Option<Seq<char>>>, kid: Seq<char>, i: int) -> bool {
    0 <= i < ids.len() && ids[i] == Some(kid) && forall|j: int| 0 <= j < i ==> ids[j] != Some(kid)
}

/// The index of the first key with the id `kid`.
pub open spec fn first_key(ids: Seq<Option<Seq<char>>>, kid: Seq<char>) -> int {
    choose|i: int| is_first_key(ids, kid, i)
}

proof fn lemma_first_key_unique(ids: Seq<Option<Seq<char>>>, kid: Seq<char>, i: int)
    requires
        is_first_key(ids, kid, i),
    ensures
        first_key(ids, kid) == i,
{
    let k = first_key(ids, kid);
    assert(is_first_key(ids, kid, k));
    if k < i {
        assert(ids[k] != Some(kid));
    }
    if i < k {
        assert(ids[i] != Some(kid));
    }
}

/// An `Unauthorized` error with message `prefix` followed by `detail`.
fn unauthorized(prefix: &str, detail: &str) -> (r: AperioError)
    ensures
        unauthorized_with(r, prefix@ + detail@),
{
    let mut out: Vec<char> = Vec::new();
    push_str(&mut out, prefix);
    push_str(&mut out, detail);
    AperioError::Unauthorized(string_from_chars(&out))
}

/// What choosing the key for `kid` in the key set `set` gives: where no key
/// has that id, the token is refused naming the id; where one has, the first
/// such is made ready, and the token is refused exactly where that key is
/// not usable, with the error making it ready gave.
pub open spec fn key_outcome(
    set: jsonwebtoken::jwk::JwkSet,
    kid: Seq<char>,
    r: Result<SelectedKey, AperioError>,
) -> bool {
    let ids = jwk_key_ids(set);
    if exists|i: int| is_first_key(ids, kid, i) {
        let i = first_key(ids, kid);
        &&& (r is Ok <==> jwk_usable(set)[i])
        &&& r matches Ok(k) ==> k.index_view() == i
        &&& r matches Err(x) ==> unauthorized_with(
            x,
            "Failed to create decoding key: "@ + jwk_errors(set)[i],
        )
    } else {
        r matches Err(x) && unauthorized_with(x, "No matching key for kid: "@ + kid)
    }
}

/// Whether `v` is the validation a verifier uses under `cfg`: RS256 tokens,
/// 30 seconds of leeway, the audience checked only where one is required, and
/// the required audience and issuer, where there are, accepted alone.
pub open spec fn validation_for(v: jsonwebtoken::Validation, cfg: Config) -> bool {
    &&& validation_rs256_rest(v)
    &&& validation_leeway(v) == 30
    &&& validation_checks_audience(v) == (cfg.required_audience is Some)
    &&& validation_audience(v) == match cfg.required_audience {
        Some(a) => Some(Set::<Seq<char>>::empty().insert(a@)),
        None => None::<Set<Seq<char>>>,
    }
    &&& validation_issuer(v) == match cfg.required_issuer {
        Some(i) => Some(Set::<Seq<char>>::empty().insert(i@)),
        None => None::<Set<Seq<char>>>,
    }
}

/// The claims a verifier under `cfg` requires of every token: the configured
/// ones, then `aud` where an audience is required and `iss` where an issuer
/// is.
pub open spec fn required_claims_for(cfg: Config) -> Seq<Seq<char>> {
    views(cfg.required_claims@) + (if cfg.required_audience is Some {
        seq!["aud"@]
    } else {
        Seq::empty()
    }) + (if cfg.required_issuer is Some {
        seq!["iss"@]
    } else {
        Seq::empty()
    })
}

impl JwtVerifier {
    /// The provider's keys.
    pub closed spec fn key_set_view(&self) -> jsonwebtoken::jwk::JwkSet {
        self.key_set
    }

    /// The claims every token must carry.
    pub closed spec fn required_view(&self) -> Seq<Seq<char>> {
        views(self.required_claims@)
    }

    /// The scopes every token must grant.
    pub closed spec fn scopes_view(&self) -> Seq<Seq<char>> {
        views(self.required_scopes@)
    }

    /// What decoding a token checks.
    pub closed spec fn validation_view(&self) -> jsonwebtoken::Validation {
        self.validation
    }

    /// A verifier for the provider's key set `key_set`, under the configuration
    /// `cfg`: RS256 tokens, 30 seconds of leeway, the audience checked only
    /// where one is required, the issuer checked where one is required, and
    /// the configured claims and scopes required; a required audience or
    /// issuer makes its claim required too.
    pub fn from_key_set(key_set: jsonwebtoken::jwk::JwkSet, cfg: &Config) -> (r: JwtVerifier)
        ensures
            r.key_set_view() == key_set,
            r.required_view() == required_claims_for(*cfg),
            r.scopes_view() == views(cfg.mcp_scopes@),
            validation_for(r.validation_view(), *cfg),
    {
        let mut validation = rs256_validation();
        set_leeway(&mut validation, 30);
        set_validate_aud(&mut validation, false);
        match &cfg.required_audience {
            Some(audience) => {
                set_validate_aud(&mut validation, true);
                set_audience(&mut validation, audience.as_str());
            },
            None => {},
        }
        match &cfg.required_issuer {
            Some(issuer) => set_issuer(&mut validation, issuer.as_str()),
            None => {},
        }
        let mut required_claims = crate::vault::clone_strings(&cfg.required_claims);
        let ghost configured = views(required_claims@);
        if cfg.required_audience.is_some() {
            let aud = "aud".to_string();
            required_claims.push(aud);
        }
        let ghost with_aud = views(required_claims@);
        if cfg.required_issuer.is_some() {
            let iss = "iss".to_string();
            required_claims.push(iss);
        }
        proof {
            if cfg.required_audience is Some {
                assert(with_aud =~= configured + seq!["aud"@]);
            } else {
                assert(with_aud =~= configured + Seq::<Seq<char>>::empty());
            }
            if cfg.required_issuer is Some {
                assert(views(required_claims@) =~= with_aud + seq!["iss"@]);
            } else {
                assert(views(required_claims@) =~= with_aud + Seq::<Seq<char>>::empty());
            }
        }
        let required_scopes = crate::vault::clone_strings(&cfg.mcp_scopes);
        JwtVerifier { key_set, validation, required_claims, required_scopes }
    }

    /// What decoding a token checks.
    pub fn validation(&self) -> (r: &jsonwebtoken::Validation)
        ensures
            *r == self.validation_view(),
    {
        &self.validation
    }

    /// The index of the first key whose id is `kid`.
    fn find_key(&self, kid: &String) -> (r: Option<usize>)
        ensures
            match r {
                Some(i) => is_first_key(jwk_key_ids(self.key_set), kid@, i as int) && i
                    < jwk_usable(self.key_set).len() && i < jwk_errors(self.key_set).len(),
                None => forall|j: int|
                    0 <= j < jwk_key_ids(self.key_set).len() ==> jwk_key_ids(self.key_set)[j]
                        != Some(kid@),
            },
    {
        let n = key_count(&self.key_set);
        let mut i: usize = 0;
        while i < n
            invariant
                n == jwk_key_ids(self.key_set).len(),
                n == jwk_usable(self.key_set).len(),
                n == jwk_errors(self.key_set).len(),
                i <= n,
                forall|j: int| 0 <= j < i ==> jwk_key_ids(self.key_set)[j] != Some(kid@),
            decreases n - i,
        {
            match key_id_at(&self.key_set, i) {
                Some(id) => {
                    if id == *kid {
                        return Some(i);
                    }
                },
                None => {},
            }
            i = i + 1;
        }
        None
    }

    /// The key to check `token` with: the first of the provider's keys whose id
    /// is the `kid` of the token's header, made ready.
    pub fn decoding_key(&self, token: &str) -> (r: Result<SelectedKey, AperioError>)
        ensures
            spec_header_key_id(token@) matches Err(e) ==> (r matches Err(x) && unauthorized_with(
                x,
                "Invalid token header: "@ + e,
            )),
            spec_header_key_id(token@) matches Ok(None) ==> (r matches Err(x) && unauthorized_with(
                x,
                "Token missing kid header"@,
            )),
            spec_header_key_id(token@) matches Ok(Some(kid)) ==> key_outcome(
                self.key_set_view(),
                kid,
                r,
            ),
    {
        match header_key_id(token) {
            Err(e) => Err(unauthorized("Invalid token header: ", e.as_str())),
            Ok(None) => {
                let m = "Token missing kid header".to_string();
                assert(m@ == "Token missing kid header"@);
                Err(AperioError::Unauthorized(m))
            },
            Ok(Some(kid)) => match self.find_key(&kid) {
                None => {
                    let ghost ids = jwk_key_ids(self.key_set_view());
                    assert(!exists|i: int| is_first_key(ids, kid@, i)) by {
                        if exists|i: int| is_first_key(ids, kid@, i) {
                            let i = choose|i: int| is_first_key(ids, kid@, i);
                            assert(ids[i] == Some(kid@));
                        }
                    }
                    let r = unauthorized("No matching key for kid: ", kid.as_str());
                    assert(key_outcome(self.key_set_view(), kid@, Err(r)));
                    Err(r)
                },
                Some(i) => {
                    let ghost ids = jwk_key_ids(self.key_set_view());
                    assert(is_first_key(ids, kid@, i as int));
                    proof {
                        lemma_first_key_unique(ids, kid@, i as int);
                    }
                    match decoding_key_at(&self.key_set, i) {
                        Ok(k) => {
                            assert(key_outcome(self.key_set_view(), kid@, Ok(k)));
                            Ok(k)
                        },
                        Err(e) => {
                            let r = unauthorized("Failed to create decoding key: ", e.as_str());
                            assert(key_outcome(self.key_set_view(), kid@, Err(r)));
                            Err(r)
                        },
                    }
                },
            },
        }
    }

    /// Whether `granted` holds `scope`.
    fn grants(granted: &Vec<String>, scope: &String) -> (b: bool)
        ensures
            b == views(granted@).contains(scope@),
    {
        let n = granted.len();
        let mut i: usize = 0;
        while i < n
            invariant
                n == granted@.len(),
                i <= n,
                forall|j: int| 0 <= j < i ==> granted@[j]@ != scope@,
            decreases n - i,
        {
            if granted[i] == *scope {
                assert(views(granted@)[i as int] == scope@);
                return true;
            }
            i = i + 1;
        }
        assert(!views(granted@).contains(scope@)) by {
            if views(granted@).contains(scope@) {
                let j = choose|j: int| 0 <= j < views(granted@).len() && views(granted@)[j] == scope@;
                assert(granted@[j]@ == scope@);
            }
        }
        false
    }

    /// The outcome of checking a token, from the outcome of decoding it (its
    /// claims, or the text of the error that decoding gave): a token that did
    /// not decode is refused, as is one that lacks a required claim or does
    /// not grant a required scope, the first such being named.
    pub fn check_claims(&self, decoded: Result<Claims, String>) -> (r: Result<Claims, AperioError>)
        ensures
            match decoded {
                Err(m) => r matches Err(x) && unauthorized_with(
                    x,
                    "Token validation failed: "@ + m@,
                ),
                Ok(c) => match first_missing(c, self.required_view()) {
                    Some(name) => r matches Err(x) && unauthorized_with(
                        x,
                        "Missing required claim: "@ + name,
                    ),
                    None => match first_missing_scope(c, self.scopes_view()) {
                        Some(scope) => r matches Err(x) && unauthorized_with(
                            x,
                            "Missing required scope: "@ + scope,
                        ),
                        None => r == Ok::<Claims, AperioError>(c),
                    },
                },
            },
    {
        match decoded {
            Err(m) => Err(unauthorized("Token validation failed: ", m.as_str())),
            Ok(claims) => {
                let n = self.required_claims.len();
                let mut i: usize = 0;
                let ghost req = views(self.required_claims@);
                assert(req.skip(0) == req);
                while i < n
                    invariant
                        n == self.required_claims@.len(),
                        req == views(self.required_claims@),
                        decoded matches Ok(c) && c == claims,
                        i <= n,
                        first_missing(claims, req) == first_missing(claims, req.skip(i as int)),
                    decreases n - i,
                {
                    assert(req.skip(i as int)[0] == self.required_claims@[i as int]@);
                    assert(req.skip(i as int).drop_first() == req.skip(i + 1));
                    if !has_claim(&claims, self.required_claims[i].as_str()) {
                        return Err(
                            unauthorized("Missing required claim: ", self.required_claims[i].as_str()),
                        );
                    }
                    i = i + 1;
                }
                assert(req.skip(n as int).len() == 0);
                assert(first_missing(claims, req) is None);
                let granted = match &claims.scope {
                    Some(s) => {
                        let cs = chars_of(s.as_str());
                        split_char(&cs, ' ')
                    },
                    None => Vec::new(),
                };
                assert(views(granted@) == granted_scopes(claims));
                let m = self.required_scopes.len();
                let mut k: usize = 0;
                let ghost sc = views(self.required_scopes@);
                assert(sc.skip(0) == sc);
                while k < m
                    invariant
                        m == self.required_scopes@.len(),
                        sc == views(self.required_scopes@),
                        views(granted@) == granted_scopes(claims),
                        decoded matches Ok(c) && c == claims,
                        req == views(self.required_claims@),
                        first_missing(claims, req) is None,
                        k <= m,
                        first_missing_scope(claims, sc) == first_missing_scope(
                            claims,
                            sc.skip(k as int),
                        ),
                    decreases m - k,
                {
                    assert(sc.skip(k as int)[0] == self.required_scopes@[k as int]@);
                    assert(sc.skip(k as int).drop_first() == sc.skip(k + 1));
                    if !Self::grants(&granted, &self.required_scopes[k]) {
                        return Err(
                            unauthorized("Missing required scope: ", self.required_scopes[k].as_str()),
                        );
                    }
                    k = k + 1;
                }
                Ok(claims)
            },
        }
    }
}

/// What the authentication layer does once a token has been checked.
pub enum AuthOutcome {
    /// Pass the request on, as this caller.
    Admit(AuthUser),
    /// Answer with a challenge that gives this reason.
    Refuse(String),
}

/// What follows the check of a token: a token that passed admits the caller
/// it names; one that was refused is answered with the refusal's message.
pub fn verification_outcome(checked: Result<Claims, AperioError>) -> (r: AuthOutcome)
    ensures
        match checked {
            Ok(c) => r matches AuthOutcome::Admit(u) && u.sub@ == (match c.sub {
                Some(s) => s@,
                None => Seq::<char>::empty(),
            }) && u.email == c.email,
            Err(e) => r matches AuthOutcome::Refuse(d) && (message_spec(e) matches Some(m)
                ==> d@ == m),
        },
{
    match checked {
        Ok(c) => AuthOutcome::Admit(authenticated_user(c)),
        Err(e) => AuthOutcome::Refuse(e.message()),
    }
}

} // verus!

verus! {

/// The token of an `Authorization` header value: what follows `Bearer `.
pub open spec fn bearer_spec(header: Option<Seq<char>>) -> Option<Seq<char>> {
    match header {
        Some(h) => if starts_with_spec(h, "Bearer "@) {
            Some(h.skip("Bearer "@.len() as int))
        } else {
            None
        },
        None => None,
    }
}

/// The bearer token of an `Authorization` header value, if it holds one.
pub fn bearer_token(header: Option<&str>) -> (r: Option<String>)
    ensures
        opt_view(r) == bearer_spec(match header {
            Some(h) => Some(h@),
            None => None,
        }),
{
    match header {
        Some(h) => {
            let hc = chars_of(h);
            let p = chars_of("Bearer ");
            if starts_with(&hc, &p) {
                let t = copy_range(&hc, p.len(), hc.len());
                Some(string_from_chars(&t))
            } else {
                None
            }
        },
        None => None,
    }
}

/// Whether requests to the tools need a token, and how they are checked.
pub struct AuthState {
    pub verifier: Option<JwtVerifier>,
}

/// What the authentication layer does with a request.
pub enum AuthStep<'a> {
    /// Authentication is off: pass the request on.
    Pass,
    /// There is no bearer token: answer with a challenge.
    Challenge,
    /// Check this bearer token with this verifier.
    Verify(&'a JwtVerifier, String),
}

/// The step for a request with the `Authorization` header value `header`,
/// where `verifier` is the verifier in use, if authentication is on.
pub open spec fn auth_step_spec(
    verifier: Option<JwtVerifier>,
    header: Option<Seq<char>>,
    r: AuthStep,
) -> bool {
    match verifier {
        None => r is Pass,
        Some(v) => match bearer_spec(header) {
            Some(t) => r matches AuthStep::Verify(w, x) && *w == v && x@ == t,
            None => r is Challenge,
        },
    }
}

impl AuthState {
    /// What to do with a request whose `Authorization` header value is
    /// `authorization` (`None` where it is missing or not visible ASCII).
    pub fn step(&self, authorization: Option<&str>) -> (r: AuthStep<'_>)
        ensures
            auth_step_spec(
                self.verifier,
                match authorization {
                    Some(h) => Some(h@),
                    None => None,
                },
                r,
            ),
    {
        match &self.verifier {
            None => AuthStep::Pass,
            Some(v) => match bearer_token(authorization) {
                Some(t) => AuthStep::Verify(v, t),
                None => AuthStep::Challenge,
            },
        }
    }
}

/// The caller a token with `claims` authenticates: its subject, empty where
/// there is none, and its e-mail address.
pub fn authenticated_user(claims: Claims) -> (r: AuthUser)
    ensures
        r.sub@ == (match claims.sub {
            Some(s) => s@,
            None => Seq::<char>::empty(),
        }),
        r.email == claims.email,
{
    let sub = match claims.sub {
        Some(s) => s,
        None => String::new(),
    };
    AuthUser { sub, email: claims.email }
}

/// The URL of this resource: `PUBLIC_URL`, else `http://` and the request's
/// `Host`, else `http://localhost`.
pub open spec fn resource_url_spec(public_url: Option<Seq<char>>, host: Option<Seq<char>>) -> Seq<
    char,
> {
    match public_url {
        Some(u) => u,
        None => "http://"@ + match host {
            Some(h) => h,
            None => "localhost"@,
        },
    }
}

/// The URL of this resource for a request with the `Host` header value `host`.
pub fn resource_url(cfg: &Config, host: Option<&str>) -> (r: String)
    ensures
        r@ == resource_url_spec(
            opt_view(cfg.public_url),
            match host {
                Some(h) => Some(h@),
                None => None,
            },
        ),
{
    match &cfg.public_url {
        Some(u) => u.clone(),
        None => {
            let mut out: Vec<char> = Vec::new();
            push_str(&mut out, "http://");
            match host {
                Some(h) => push_str(&mut out, h),
                None => push_str(&mut out, "localhost"),
            }
            string_from_chars(&out)
        },
    }
}

/// The challenge answered to a request that is refused: the `WWW-Authenticate`
/// header and the fields of the JSON body.
pub struct AuthChallenge {
    pub www_authenticate: String,
    /// The body's `error`.
    pub error: String,
    /// The body's `error_description`.
    pub error_description: String,
    /// The body's `resource_metadata`: where the RFC 9728 metadata is served.
    pub resource_metadata: String,
}

/// The URL of the RFC 9728 metadata of a resource.
pub open spec fn metadata_url_spec(resource: Seq<char>) -> Seq<char> {
    resource + "/.well-known/oauth-protected-resource"@
}

/// The `WWW-Authenticate` header of a challenge.
pub open spec fn www_authenticate_spec(realm: Seq<char>, metadata_url: Seq<char>) -> Seq<char> {
    "Bearer realm=\""@ + realm + "\", resource_metadata=\""@ + metadata_url + "\""@
}

/// The description of a refusal: why no token was accepted.
pub open spec fn refusal_description(detail: Option<Seq<char>>) -> Seq<char> {
    match detail {
        Some(d) => "Token verification failed: "@ + d,
        None => "Valid authentication token required. See WWW-Authenticate header for details."@,
    }
}

/// The challenge for a refused request with the `Host` header value `host`;
/// `error_detail` is the message of the error that refused its token, where
/// it had one.
pub fn auth_challenge(cfg: &Config, host: Option<&str>, error_detail: Option<&str>) -> (r:
    AuthChallenge)
    ensures
        ({
            let meta = metadata_url_spec(
                resource_url_spec(
                    opt_view(cfg.public_url),
                    match host {
                        Some(h) => Some(h@),
                        None => None,
                    },
                ),
            );
            &&& r.resource_metadata@ == meta
            &&& r.www_authenticate@ == www_authenticate_spec(cfg.mcp_realm@, meta)
            &&& r.error@ == "unauthorized"@
            &&& r.error_description@ == refusal_description(
                match error_detail {
                    Some(d) => Some(d@),
                    None => None,
                },
            )
        }),
{
    let resource = resource_url(cfg, host);
    let mut meta: Vec<char> = Vec::new();
    push_str(&mut meta, resource.as_str());
    push_str(&mut meta, "/.well-known/oauth-protected-resource");
    let meta = string_from_chars(&meta);
    let mut www: Vec<char> = Vec::new();
    push_str(&mut www, "Bearer realm=\"");
    push_str(&mut www, cfg.mcp_realm.as_str());
    push_str(&mut www, "\", resource_metadata=\"");
    push_str(&mut www, meta.as_str());
    push_str(&mut www, "\"");
    let mut desc: Vec<char> = Vec::new();
    match error_detail {
        Some(d) => {
            push_str(&mut desc, "Token verification failed: ");
            push_str(&mut desc, d);
        },
        None => push_str(
            &mut desc,
            "Valid authentication token required. See WWW-Authenticate header for details.",
        ),
    }
    AuthChallenge {
        www_authenticate: string_from_chars(&www),
        error: "unauthorized".to_string(),
        error_description: string_from_chars(&desc),
        resource_metadata: meta,
    }
}

/// `str::trim_end_matches` with a text pattern: `s` with every trailing
/// occurrence of `p` removed, one after the other.
pub open spec fn trim_end_matches_spec(s: Seq<char>, p: Seq<char>) -> Seq<char>
    decreases s.len(),
{
    if p.len() > 0 && p.len() <= s.len() && s.skip(s.len() - p.len()) == p {
        trim_end_matches_spec(s.take(s.len() - p.len()), p)
    } else {
        s
    }
}

/// `s` with every trailing occurrence of `p` removed.
pub fn trim_end_matches(s: &Vec<char>, p: &Vec<char>) -> (r: Vec<char>)
    ensures
        r@ == trim_end_matches_spec(s@, p@),
{
    let mut end: usize = s.len();
    let m = p.len();
    assert(s@.take(end as int) == s@);
    loop
        invariant
            end <= s@.len(),
            m == p@.len(),
            trim_end_matches_spec(s@, p@) == trim_end_matches_spec(s@.take(end as int), p@),
        ensures
            end <= s@.len(),
            trim_end_matches_spec(s@, p@) == s@.take(end as int),
        decreases end,
    {
        if m == 0 || m > end {
            assert(trim_end_matches_spec(s@.take(end as int), p@) == s@.take(end as int));
            break;
        }
        let tail = copy_range(s, end - m, end);

        let mut same = true;
        let mut k: usize = 0;
        while k < m
            invariant
                k <= m,
                m == p@.len(),
                tail@.len() == m,
                same == (forall|j: int| 0 <= j < k ==> tail@[j] == p@[j]),
            decreases m - k,
        {
            if tail[k] != p[k] {
                same = false;
            }
            k = k + 1;
        }
        assert(s@.take(end as int).skip(end - m) == tail@);
        if !same {
            assert(tail@ != p@) by {
                let j = choose|j: int| 0 <= j < m && tail@[j] != p@[j];
            }
            assert(trim_end_matches_spec(s@.take(end as int), p@) == s@.take(end as int));
            break;
        }
        assert(tail@ == p@);
        assert(s@.take(end as int).take(end - m) == s@.take(end - m));
        end = end - m;
    }
    let r = copy_range(s, 0, end);
    assert(r@ == s@.take(end as int));
    r
}

/// What the RFC 9728 metadata of this resource names.
pub struct ResourceMetadata {
    /// The resource's URL.
    pub resource: String,
    /// The authorization server: the discovery URL without trailing `/`s and
    /// without its trailing `/.well-known/openid-configuration`.
    pub authorization_server: String,
}

/// The authorization server named by a discovery URL.
pub open spec fn issuer_base_spec(discovery_url: Seq<char>) -> Seq<char> {
    trim_end_matches_spec(
        trim_end_matches_spec(discovery_url, seq!['/']),
        "/.well-known/openid-configuration"@,
    )
}

/// The RFC 9728 metadata answered to a request with the `Host` header value `host`.
pub fn resource_metadata(cfg: &Config, host: Option<&str>) -> (r: ResourceMetadata)
    ensures
        r.resource@ == resource_url_spec(
            opt_view(cfg.public_url),
            match host {
                Some(h) => Some(h@),
                None => None,
            },
        ),
        r.authorization_server@ == issuer_base_spec(cfg.discovery_url@),
{
    let resource = resource_url(cfg, host);
    let d = chars_of(cfg.discovery_url.as_str());
    let mut slash: Vec<char> = Vec::new();
    slash.push('/');
    assert(slash@ == seq!['/']);
    let t = trim_end_matches(&d, &slash);
    let wk = chars_of("/.well-known/openid-configuration");
    let b = trim_end_matches(&t, &wk);
    ResourceMetadata { resource, authorization_server: string_from_chars(&b) }
}

/// The name for what `url::Url::parse` gives for a text: the URL written back
/// by `Display`, or nothing where the text is not a URL.
pub uninterp spec fn spec_url_parse(s: Seq<char>) -> Option<Seq<char>>;

/// Calls `url::Url::parse` and writes the URL back with `to_string`.
#[verifier::external_body]
fn parse_url(s: &str) -> (r: Option<String>)
    ensures
        opt_view(r) == spec_url_parse(s@),
{
    url::Url::parse(s).ok().map(|u| u.to_string())
}

/// Why the JWKS URL of a discovery document could not be had.
#[derive(PartialEq, Eq, Structural, Clone, Copy, Debug)]
pub enum JwksUrlError {
    /// The document has no `jwks_uri`.
    MissingUri,
    /// The `jwks_uri` is not a URL.
    InvalidUrl,
}

/// The JWKS URL of a discovery document whose `jwks_uri` member is written
/// as JSON by `rendered_uri`: that text without its `"` characters, parsed as
/// a URL.
pub open spec fn jwks_url_spec(rendered_uri: Option<Seq<char>>) -> Result<Seq<char>, JwksUrlError> {
    match rendered_uri {
        None => Err(JwksUrlError::MissingUri),
        Some(r) => match spec_url_parse(remove_char_spec(r, '"')) {
            Some(u) => Ok(u),
            None => Err(JwksUrlError::InvalidUrl),
        },
    }
}

/// The JWKS URL of a discovery document, given its `jwks_uri` member written as JSON.
pub fn jwks_url(rendered_uri: Option<String>) -> (r: Result<String, JwksUrlError>)
    ensures
        match jwks_url_spec(opt_view(rendered_uri)) {
            Ok(u) => r matches Ok(x) && x@ == u,
            Err(e) => r == Err::<String, JwksUrlError>(e),
        },
{
    match rendered_uri {
        None => Err(JwksUrlError::MissingUri),
        Some(s) => {
            let cs = chars_of(s.as_str());
            let stripped = remove_char(&cs, '"');
            let u = string_from_chars(&stripped);
            match parse_url(u.as_str()) {
                Some(x) => Ok(x),
                None => Err(JwksUrlError::InvalidUrl),
            }
        },
    }
}


/// The token of a header `Bearer {t}` is `t`, whatever `t` is, and a header
/// gives a token only where it is `Bearer ` followed by that token.
pub proof fn lemma_bearer_round_trip(t: Seq<char>, h: Seq<char>)
    ensures
        bearer_spec(Some("Bearer "@ + t)) == Some(t),
        bearer_spec(Some(h)) matches Some(x) ==> h == "Bearer "@ + x,
        bearer_spec(None) is None,
{
    let p = "Bearer "@;
    assert((p + t).take(p.len() as int) =~= p);
    assert((p + t).skip(p.len() as int) =~= t);
    if bearer_spec(Some(h)) is Some {
        assert(h =~= h.take(p.len() as int) + h.skip(p.len() as int));
    }
}

/// A token is refused for a missing claim only when it lacks a claim that is
/// required, and passes the claim check only when it has every one.
pub proof fn lemma_first_missing_claim(c: Claims, required: Seq<Seq<char>>)
    ensures
        first_missing(c, required) matches Some(n) ==> required.contains(n) && !has_claim_spec(
            c,
            n,
        ),
        first_missing(c, required) is None ==> forall|i: int|
            0 <= i < required.len() ==> has_claim_spec(c, #[trigger] required[i]),
    decreases required.len(),
{
    if required.len() > 0 {
        lemma_first_missing_claim(c, required.drop_first());
        if has_claim_spec(c, required[0]) {
            if first_missing(c, required) is Some {
                let n = first_missing(c, required).unwrap();
                let j = choose|j: int| 0 <= j < required.drop_first().len() && required.drop_first()[j] == n;
                assert(required[j + 1] == n);
            } else {
                assert forall|i: int| 0 <= i < required.len() implies has_claim_spec(
                    c,
                    #[trigger] required[i],
                ) by {
                    if i > 0 {
                        assert(required[i] == required.drop_first()[i - 1]);
                    }
                }
            }
        } else {
            assert(required[0] == required[0]);
        }
    }
}

/// A token is refused for a missing scope only when its `scope` claim,
/// split at spaces, lacks a scope that is required, and passes the scope
/// check only when it grants every one.
pub proof fn lemma_first_missing_scope(c: Claims, required: Seq<Seq<char>>)
    ensures
        first_missing_scope(c, required) matches Some(n) ==> required.contains(n) && !(match c.scope {
            Some(s) => split_spec(s@, ' ').contains(n),
            None => false,
        }),
        first_missing_scope(c, required) is None ==> forall|i: int|
            0 <= i < required.len() ==> (match c.scope {
                Some(s) => split_spec(s@, ' ').contains(#[trigger] required[i]),
                None => false,
            }),
    decreases required.len(),
{
    if required.len() > 0 {
        lemma_first_missing_scope(c, required.drop_first());
        if granted_scopes(c).contains(required[0]) {
            if first_missing_scope(c, required) is Some {
                let n = first_missing_scope(c, required).unwrap();
                let j = choose|j: int| 0 <= j < required.drop_first().len() && required.drop_first()[j] == n;
                assert(required[j + 1] == n);
            } else {
                assert forall|i: int| 0 <= i < required.len() implies (match c.scope {
                    Some(s) => split_spec(s@, ' ').contains(#[trigger] required[i]),
                    None => false,
                }) by {
                    if i > 0 {
                        assert(required[i] == required.drop_first()[i - 1]);
                    }
                }
            }
        } else {
            assert(required[0] == required[0]);
        }
    }
}

} // verus!

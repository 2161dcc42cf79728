//! Tenant tiers, proxy configuration, and bearer-token handling for the
//! authenticating reverse proxy.

use vstd::prelude::*;
use vstd::string::*;

verus! {

/// Tenant tier: decides rate limits.
#[derive(Clone, Copy, Debug, PartialEq, Eq, Structural)]
pub enum TenantTier {
    Free,
    Pro,
    Enterprise,
}

/// What a tier name means once lower-cased; unknown names are `Free`.
pub open spec fn tier_named(l: Seq<char>) -> TenantTier {
    if l == "pro"@ {
        TenantTier::Pro
    } else if l == "enterprise"@ {
        TenantTier::Enterprise
    } else {
        TenantTier::Free
    }
}

/// The lower-case form of a string, as `str::to_lowercase` computes it.
pub uninterp spec fn lower_of(s: Seq<char>) -> Seq<char>;

/// Relies on `str::to_lowercase`: the lower-case mapping of each character.
#[verifier::external_body]
fn lowercase(s: &str) -> (r: String)
    ensures
        r@ == lower_of(s@),
{
    s.to_lowercase()
}

/// Relies on `str::strip_prefix`: the rest of `s` when `s` starts with
/// `prefix`, none otherwise.
#[verifier::external_body]
pub(crate) fn strip_prefix<'a>(s: &'a str, prefix: &str) -> (r: Option<&'a str>)
    ensures
        match r {
            Some(rest) => s@ == prefix@ + rest@,
            None => !(prefix@.len() <= s@.len() && s@.subrange(0, prefix@.len() as int) == prefix@),
        },
{
    s.strip_prefix(prefix)
}

/// Relies on `str::strip_suffix`: the start of `s` when `s` ends with
/// `suffix`, none otherwise.
#[verifier::external_body]
pub(crate) fn strip_suffix<'a>(s: &'a str, suffix: &str) -> (r: Option<&'a str>)
    ensures
        match r {
            Some(rest) => s@ == rest@ + suffix@,
            None => !(suffix@.len() <= s@.len() && s@.subrange(s@.len() - suffix@.len(), s@.len() as int) == suffix@),
        },
{
    s.strip_suffix(suffix)
}

impl TenantTier {
    /// The tier named by an already lower-cased string.
    pub fn from_lowercase(l: &str) -> (r: TenantTier)
        ensures
            r == tier_named(l@),
    {
        let s = l.to_owned();
        let pro = String::from_str("pro");
        let enterprise = String::from_str("enterprise");
        if s == pro {
            TenantTier::Pro
        } else if s == enterprise {
            TenantTier::Enterprise
        } else {
            TenantTier::Free
        }
    }

    /// The tier named by `s`, ignoring case; unknown names are `Free`.
    pub fn from_str(s: &str) -> (r: TenantTier)
        ensures
            r == tier_named(lower_of(s@)),
    {
        let l = lowercase(s);
        TenantTier::from_lowercase(l.as_str())
    }

    pub fn requests_per_minute(&self) -> (r: u32)
        ensures
            r == match *self {
                TenantTier::Free => 60u32,
                TenantTier::Pro => 300u32,
                TenantTier::Enterprise => 1000u32,
            },
    {
        match self {
            TenantTier::Free => 60,
            TenantTier::Pro => 300,
            TenantTier::Enterprise => 1000,
        }
    }

    pub fn burst_size(&self) -> (r: u32)
        ensures
            r == match *self {
                TenantTier::Free => 10u32,
                TenantTier::Pro => 50u32,
                TenantTier::Enterprise => 100u32,
            },
    {
        match self {
            TenantTier::Free => 10,
            TenantTier::Pro => 50,
            TenantTier::Enterprise => 100,
        }
    }
}

/// Proxy configuration.
#[derive(Clone, Debug)]
pub struct ProxyConfig {
    pub auth_enabled: bool,
    /// AWS region of the user pool, e.g. "us-east-1".
    pub cognito_region: String,
    /// User pool id, e.g. "us-east-1_xxxxxxxx".
    pub cognito_pool_id: String,
    /// App client id for audience validation, if any.
    pub cognito_client_id: Option<String>,
    /// Default requests per minute for unknown tiers.
    pub rate_limit_rpm: u32,
    /// Default burst for unknown tiers.
    pub rate_limit_burst: u32,
}

impl ProxyConfig {
    pub open spec fn issuer_spec(&self) -> Seq<char> {
        "https://cognito-idp."@ + self.cognito_region@ + ".amazonaws.com/"@ + self.cognito_pool_id@
    }

    /// The issuer expected in tokens of the configured user pool.
    pub fn expected_issuer(&self) -> (r: String)
        ensures
            r@ == self.issuer_spec(),
    {
        let mut s = String::from_str("https://cognito-idp.");
        s.append(self.cognito_region.as_str());
        s.append(".amazonaws.com/");
        s.append(self.cognito_pool_id.as_str());
        s
    }

    /// Where the user pool publishes its signing keys.
    pub fn jwks_url(&self) -> (r: String)
        ensures
            r@ == self.issuer_spec() + "/.well-known/jwks.json"@,
    {
        let mut s = self.expected_issuer();
        s.append("/.well-known/jwks.json");
        s
    }
}

/// Authentication and authorization errors.
#[derive(Clone, Debug, PartialEq, Eq)]
pub enum AuthError {
    MissingToken,
    InvalidToken(String),
    ExpiredToken,
    RateLimited,
    JwksFetchError(String),
}

/// Machine-readable code of an error.
pub fn error_code(error: &AuthError) -> (r: &'static str)
    ensures
        r@ == match *error {
            AuthError::MissingToken => "missing_token"@,
            AuthError::InvalidToken(_) => "invalid_token"@,
            AuthError::ExpiredToken => "expired_token"@,
            AuthError::RateLimited => "rate_limited"@,
            AuthError::JwksFetchError(_) => "service_unavailable"@,
        },
{
    match error {
        AuthError::MissingToken => "missing_token",
        AuthError::InvalidToken(_) => "invalid_token",
        AuthError::ExpiredToken => "expired_token",
        AuthError::RateLimited => "rate_limited",
        AuthError::JwksFetchError(_) => "service_unavailable",
    }
}

impl AuthError {
    /// HTTP status of the error response: 401, 429 or 503.
    pub fn status_code(&self) -> (r: u16)
        ensures
            r == match *self {
                AuthError::RateLimited => 429u16,
                AuthError::JwksFetchError(_) => 503u16,
                _ => 401u16,
            },
    {
        match self {
            AuthError::RateLimited => 429,
            AuthError::JwksFetchError(_) => 503,
            _ => 401,
        }
    }
}

/// Claims of a Cognito token.
#[derive(Clone, Debug)]
pub struct CognitoClaims {
    /// Subject: the tenant id.
    pub sub: String,
    /// Expiry, Unix seconds.
    pub exp: u64,
    pub iss: String,
    /// "access" or "id".
    pub token_use: String,
    pub client_id: Option<String>,
    pub username: Option<String>,
    /// Custom claim naming the tenant's tier.
    pub tenant_tier: Option<String>,
}

impl CognitoClaims {
    pub fn tenant_id(&self) -> (r: &str)
        ensures
            r@ == self.sub@,
    {
        self.sub.as_str()
    }

    /// The tier the claims name, `Free` when they name none.
    pub fn tier(&self) -> (r: TenantTier)
        ensures
            r == match self.tenant_tier {
                Some(t) => tier_named(lower_of(t@)),
                None => TenantTier::Free,
            },
    {
        match &self.tenant_tier {
            Some(t) => TenantTier::from_str(t.as_str()),
            None => TenantTier::Free,
        }
    }
}

/// An authenticated tenant.
#[derive(Clone, Debug)]
pub struct AuthenticatedTenant {
    pub tenant_id: String,
    pub tier: TenantTier,
}

impl AuthenticatedTenant {
    pub fn from_claims(claims: CognitoClaims) -> (r: AuthenticatedTenant)
        ensures
            r.tenant_id == claims.sub,
            r.tier == match claims.tenant_tier {
                Some(t) => tier_named(lower_of(t@)),
                None => TenantTier::Free,
            },
    {
        let tier = claims.tier();
        AuthenticatedTenant { tenant_id: claims.sub, tier }
    }
}

pub open spec fn starts_with(s: Seq<char>, p: Seq<char>) -> bool {
    p.len() <= s.len() && s.subrange(0, p.len() as int) == p
}

/// The token of an `Authorization` header value: what follows "Bearer " or
/// "bearer ", when that is not empty.
pub open spec fn bearer_token_of(v: Seq<char>) -> Option<Seq<char>> {
    let rest = if starts_with(v, "Bearer "@) {
        Some(v.subrange(7, v.len() as int))
    } else if starts_with(v, "bearer "@) {
        Some(v.subrange(7, v.len() as int))
    } else {
        None
    };
    match rest {
        Some(t) => if t.len() == 0 { None } else { Some(t) },
        None => None,
    }
}

/// Extracts the bearer token from an `Authorization` header.
pub fn extract_bearer_token(header_value: Option<&str>) -> (r: Result<&str, AuthError>)
    ensures
        match header_value {
            None => r == Err::<&str, AuthError>(AuthError::MissingToken),
            Some(v) => match bearer_token_of(v@) {
                Some(t) => r.is_ok() && r.unwrap()@ == t,
                None => r == Err::<&str, AuthError>(AuthError::MissingToken),
            },
        },
{
    let value = match header_value {
        Some(v) => v,
        None => return Err(AuthError::MissingToken),
    };
    proof {
        reveal_strlit("Bearer ");
        reveal_strlit("bearer ");
    }
    let token = match strip_prefix(value, "Bearer ") {
        Some(t) => {
            proof {
                assert(value@.subrange(0, 7) =~= "Bearer "@);
                assert(t@ =~= value@.subrange(7, value@.len() as int));
            }
            t
        },
        None => match strip_prefix(value, "bearer ") {
            Some(t) => {
                proof {
                    assert(value@.subrange(0, 7) =~= "bearer "@);
                    assert(t@ =~= value@.subrange(7, value@.len() as int));
                }
                t
            },
            None => return Err(AuthError::MissingToken),
        },
    };
    if token.is_empty() {
        return Err(AuthError::MissingToken);
    }
    Ok(token)
}

/// The upstream base and the rest of the path for a proxied path; none
/// for an unknown prefix.
pub open spec fn route_of(p: Seq<char>) -> Option<(Seq<char>, Seq<char>)> {
    if p == "/clob"@ {
        Some(("https://clob.polymarket.com"@, Seq::empty()))
    } else if starts_with(p, "/clob/"@) {
        Some(("https://clob.polymarket.com"@, p.subrange(6, p.len() as int)))
    } else if p == "/gamma"@ {
        Some(("https://gamma-api.polymarket.com"@, Seq::empty()))
    } else if starts_with(p, "/gamma/"@) {
        Some(("https://gamma-api.polymarket.com"@, p.subrange(7, p.len() as int)))
    } else if p == "/chain"@ {
        Some(("https://polygon-rpc.com"@, Seq::empty()))
    } else if starts_with(p, "/chain/"@) {
        Some(("https://polygon-rpc.com"@, p.subrange(7, p.len() as int)))
    } else {
        None
    }
}

/// One route: the exact prefix maps to the base, and `prefix/rest` to `rest`.
fn match_route(path: &str, prefix: &str, prefix_slash: &str, base: &str) -> (r: Option<(String, String)>)
    requires
        prefix_slash@ == prefix@ + seq!['/'],
    ensures
        match r {
            Some((b, rest)) => b@ == base@ && (
                (path@ == prefix@ && rest@.len() == 0)
                || (path@ != prefix@ && starts_with(path@, prefix_slash@) && rest@ == path@.subrange(prefix_slash@.len() as int, path@.len() as int))
            ),
            None => path@ != prefix@ && !starts_with(path@, prefix_slash@),
        },
{
    let p = path.to_owned();
    if p == prefix.to_owned() {
        return Some((base.to_owned(), String::new()));
    }
    match strip_prefix(path, prefix_slash) {
        Some(rest) => {
            proof {
                assert(path@.subrange(0, prefix_slash@.len() as int) =~= prefix_slash@);
                assert(rest@ =~= path@.subrange(prefix_slash@.len() as int, path@.len() as int));
            }
            Some((base.to_owned(), rest.to_owned()))
        },
        None => None,
    }
}

/// The upstream URL of a proxied request: the route's base, '/', the rest
/// of the path, and '?' with the query when there is one; none for an
/// unknown prefix.
pub fn upstream_url(path: &str, query: &str) -> (r: Option<String>)
    ensures
        match route_of(path@) {
            Some((base, rest)) => r.is_some() && r.unwrap()@ == base + seq!['/'] + rest + if query@.len() == 0 {
                Seq::<char>::empty()
            } else {
                seq!['?'] + query@
            },
            None => r.is_none(),
        },
{
    proof {
        reveal_strlit("/clob");
        reveal_strlit("/clob/");
        reveal_strlit("/gamma");
        reveal_strlit("/gamma/");
        reveal_strlit("/chain");
        reveal_strlit("/chain/");
        reveal_strlit("/");
        reveal_strlit("?");
        assert("/clob/"@ =~= "/clob"@ + seq!['/']);
        assert("/gamma/"@ =~= "/gamma"@ + seq!['/']);
        assert("/chain/"@ =~= "/chain"@ + seq!['/']);
    }
    let routed = match match_route(path, "/clob", "/clob/", "https://clob.polymarket.com") {
        Some(x) => Some(x),
        None => match match_route(path, "/gamma", "/gamma/", "https://gamma-api.polymarket.com") {
            Some(x) => Some(x),
            None => match_route(path, "/chain", "/chain/", "https://polygon-rpc.com"),
        },
    };
    let (base, rest) = match routed {
        Some(x) => x,
        None => return None,
    };
    let mut url = base;
    url.append("/");
    url.append(rest.as_str());
    if !query.is_empty() {
        url.append("?");
        url.append(query);
    }
    proof {
        if query@.len() == 0 {
            assert(url@ =~= base@ + seq!['/'] + rest@ + Seq::<char>::empty());
        }
    }
    Some(url)
}

/// Whether a request header goes upstream: all but `host` and `authorization`.
pub fn forwards_header(name: &str) -> (r: bool)
    ensures
        r == !(name@ == "host"@ || name@ == "authorization"@),
{
    let n = name.to_owned();
    !(n == String::from_str("host") || n == String::from_str("authorization"))
}

} // verus!

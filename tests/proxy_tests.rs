use pmengine::decimal::Decimal;
use pmengine::gamma::{build_market_info, parse_decimal, parse_outcome_prices, subscribe_new_tokens, GammaMarket};
use pmengine::proxy::{forwards_header, upstream_url, error_code, extract_bearer_token, AuthError, AuthenticatedTenant, CognitoClaims, ProxyConfig, TenantTier};

#[test]
fn test_extract_bearer_token() {
    assert_eq!(extract_bearer_token(Some("Bearer abc123")).unwrap(), "abc123");
    assert_eq!(extract_bearer_token(Some("bearer abc123")).unwrap(), "abc123");
    assert!(extract_bearer_token(None).is_err());
    assert!(extract_bearer_token(Some("")).is_err());
    assert!(extract_bearer_token(Some("Basic abc123")).is_err());
    assert!(extract_bearer_token(Some("Bearer ")).is_err());
}

fn claims(tier: Option<&str>) -> CognitoClaims {
    CognitoClaims {
        sub: "user-123".to_string(),
        exp: 0,
        iss: "https://cognito-idp.us-east-1.amazonaws.com/us-east-1_abc".to_string(),
        token_use: "access".to_string(),
        client_id: None,
        username: None,
        tenant_tier: tier.map(|t| t.to_string()),
    }
}

#[test]
fn test_cognito_claims_tier() {
    assert_eq!(claims(Some("pro")).tier(), TenantTier::Pro);
    assert_eq!(claims(None).tier(), TenantTier::Free);
}

#[test]
fn authenticated_tenant_from_claims() {
    let t = AuthenticatedTenant::from_claims(claims(Some("Enterprise")));
    assert_eq!(t.tenant_id, "user-123");
    assert_eq!(t.tier, TenantTier::Enterprise);
    assert_eq!(claims(None).tenant_id(), "user-123");
}

#[test]
fn test_tenant_tier_from_str() {
    assert_eq!(TenantTier::from_str("free"), TenantTier::Free);
    assert_eq!(TenantTier::from_str("pro"), TenantTier::Pro);
    assert_eq!(TenantTier::from_str("PRO"), TenantTier::Pro);
    assert_eq!(TenantTier::from_str("enterprise"), TenantTier::Enterprise);
    assert_eq!(TenantTier::from_str("ENTERPRISE"), TenantTier::Enterprise);
    assert_eq!(TenantTier::from_str("unknown"), TenantTier::Free);
}

#[test]
fn tier_from_lowercase_is_exact() {
    assert_eq!(TenantTier::from_lowercase("pro"), TenantTier::Pro);
    assert_eq!(TenantTier::from_lowercase("PRO"), TenantTier::Free);
}

#[test]
fn test_tenant_tier_limits() {
    assert_eq!(TenantTier::Free.requests_per_minute(), 60);
    assert_eq!(TenantTier::Pro.requests_per_minute(), 300);
    assert_eq!(TenantTier::Enterprise.requests_per_minute(), 1000);
    assert_eq!(TenantTier::Free.burst_size(), 10);
    assert_eq!(TenantTier::Pro.burst_size(), 50);
    assert_eq!(TenantTier::Enterprise.burst_size(), 100);
}

#[test]
fn test_config_jwks_url() {
    let config = ProxyConfig {
        auth_enabled: true,
        cognito_region: "us-east-1".to_string(),
        cognito_pool_id: "us-east-1_abc123".to_string(),
        cognito_client_id: None,
        rate_limit_rpm: 100,
        rate_limit_burst: 20,
    };
    assert_eq!(
        config.jwks_url(),
        "https://cognito-idp.us-east-1.amazonaws.com/us-east-1_abc123/.well-known/jwks.json"
    );
    assert_eq!(config.expected_issuer(), "https://cognito-idp.us-east-1.amazonaws.com/us-east-1_abc123");
}

#[test]
fn test_error_status_codes() {
    assert_eq!(AuthError::MissingToken.status_code(), 401);
    assert_eq!(AuthError::InvalidToken("test".to_string()).status_code(), 401);
    assert_eq!(AuthError::ExpiredToken.status_code(), 401);
    assert_eq!(AuthError::RateLimited.status_code(), 429);
    assert_eq!(AuthError::JwksFetchError("test".to_string()).status_code(), 503);
}

#[test]
fn error_codes() {
    assert_eq!(error_code(&AuthError::MissingToken), "missing_token");
    assert_eq!(error_code(&AuthError::JwksFetchError("x".to_string())), "service_unavailable");
}

fn market(prices: Vec<Decimal>, end_date: Option<i64>) -> GammaMarket {
    GammaMarket {
        question: "Test?".to_string(),
        slug: "test".to_string(),
        end_date,
        outcomes: vec!["Yes".to_string(), "No".to_string()],
        outcome_prices: prices,
        clob_token_ids: vec!["123".to_string(), "456".to_string()],
        active: true,
        closed: false,
        liquidity: Some(Decimal::new(1000, 0)),
        category: Some("politics".to_string()),
    }
}

#[test]
fn test_hours_until_expiry() {
    let now = 1_700_000_000_000i64;
    let m = market(vec![Decimal::new(95, 2), Decimal::new(5, 2)], Some(now + 2 * 3_600_000));
    let hours = m.hours_until_expiry(now).unwrap();
    assert!(hours > Decimal::new(19, 1) && hours < Decimal::new(21, 1));
    assert_eq!(hours, Decimal::new(2, 0));
}

#[test]
fn test_high_certainty() {
    let m = market(vec![Decimal::new(95, 2), Decimal::new(5, 2)], None);
    assert!(m.has_high_certainty_outcome(Decimal::new(95, 2)));
    assert!(!m.has_high_certainty_outcome(Decimal::new(96, 2)));
}

#[test]
fn test_highest_certainty_index() {
    let m = market(vec![Decimal::new(30, 2), Decimal::new(70, 2)], None);
    assert_eq!(m.highest_certainty_index(), Some(1));
    let tie = market(vec![Decimal::new(50, 2), Decimal::new(50, 2)], None);
    assert_eq!(tie.highest_certainty_index(), Some(1));
    assert_eq!(market(vec![], None).highest_certainty_index(), None);
}

#[test]
fn parses_decimal_text() {
    assert_eq!(parse_decimal("0.95"), Some(Decimal::new(95, 2)));
    assert_eq!(parse_decimal("-12.5"), Some(Decimal::new(-125, 1)));
    assert_eq!(parse_decimal("0.1234567891"), Some(Decimal { raw: 123_456_789 }));
    assert_eq!(parse_decimal("abc"), None);
    let texts = vec!["0.95".to_string(), "0.05".to_string()];
    assert_eq!(parse_outcome_prices(&texts), Some(vec![Decimal::new(95, 2), Decimal::new(5, 2)]));
    let bad = vec!["0.95".to_string(), "x".to_string()];
    assert_eq!(parse_outcome_prices(&bad), None);
}

#[test]
fn discovery_picks_high_certainty_token() {
    let m = market(vec![Decimal::new(95, 2), Decimal::new(5, 2)], None);
    let info = build_market_info(&vec![m.clone()], 0);
    assert_eq!(info.len(), 1);
    assert_eq!(info[0].0, "123");
    assert_eq!(info[0].1.outcome, "Yes");
    let mut subscribed = vec!["999".to_string()];
    let added = subscribe_new_tokens(&mut subscribed, &vec![m.clone()]);
    assert_eq!(added, vec!["123".to_string()]);
    let again = subscribe_new_tokens(&mut subscribed, &vec![m]);
    assert!(again.is_empty());
    assert_eq!(subscribed.len(), 2);
}

#[test]
fn upstream_routing() {
    assert_eq!(upstream_url("/clob/book", "token_id=1").unwrap(), "https://clob.polymarket.com/book?token_id=1");
    assert_eq!(upstream_url("/clob", "").unwrap(), "https://clob.polymarket.com/");
    assert_eq!(upstream_url("/gamma/events", "").unwrap(), "https://gamma-api.polymarket.com/events");
    assert_eq!(upstream_url("/chain/", "").unwrap(), "https://polygon-rpc.com/");
    assert_eq!(upstream_url("/clobber", ""), None);
    assert_eq!(upstream_url("/other", "x=1"), None);
    assert!(!forwards_header("host"));
    assert!(!forwards_header("authorization"));
    assert!(forwards_header("content-type"));
}

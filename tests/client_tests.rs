use pmengine::client::{compute_l2_signature, l2_headers, l2_message, private_key_bytes, sign_l2_message};
use pmengine::decimal::Decimal;
use pmengine::errors::{ClientError, ConfigError, EngineError, GammaError};
use pmengine::gamma::{merge_unique_by_slug, parse_datetime, select_candidates, GammaMarket};

#[test]
fn message_runs_parts_together() {
    assert_eq!(l2_message(1700000000, "GET", "/orders", ""), "1700000000GET/orders");
    assert_eq!(l2_message(-5, "POST", "/o", "{}"), "-5POST/o{}");
}

#[test]
fn hmac_signature_known_vector() {
    let s = sign_l2_message(&b"Jefe".to_vec(), "what do ya want for nothing?").unwrap();
    assert_eq!(s, "W9zBRr9gdU5qBCQmCJV1x1oAPwidJzmDnexYuWTsOEM=");
}

#[test]
fn l2_signature_decodes_secret() {
    let s = compute_l2_signature("c2VjcmV0LWtleS0xMjM0NQ==", 1700000000, "GET", "/orders", "").unwrap();
    assert_eq!(s, "QvXXGlboMli0znSTAe0zm8HP5R2_pQIebbPpknwKjzE=");
    assert!(matches!(compute_l2_signature("not base64!", 1, "GET", "/", ""), Err(ClientError::OrderError(_))));
}

#[test]
fn headers_in_order() {
    let h = l2_headers("0xabc", "key", "pass", "sig", 42);
    let names: Vec<&str> = h.iter().map(|(n, _)| n.as_str()).collect();
    assert_eq!(names, vec!["POLY_ADDRESS", "POLY_API_KEY", "POLY_PASSPHRASE", "POLY_SIGNATURE", "POLY_TIMESTAMP"]);
    assert_eq!(h[4].1, "42");
    assert_eq!(h[0].1, "0xabc");
}

#[test]
fn private_key_decoding() {
    let hex64 = "11".repeat(32);
    assert_eq!(private_key_bytes(&hex64).unwrap(), vec![0x11u8; 32]);
    assert_eq!(private_key_bytes(&format!("0x{}", hex64)).unwrap(), vec![0x11u8; 32]);
    assert!(matches!(private_key_bytes("0x1234"), Err(ConfigError::InvalidValue(_))));
    assert!(matches!(private_key_bytes("zz"), Err(ConfigError::InvalidValue(_))));
}

#[test]
fn error_messages() {
    assert_eq!(EngineError::UnknownStrategy("x".to_string()).message(), "Unknown strategy: x");
    assert_eq!(ConfigError::MissingVar("PRIVATE_KEY".to_string()).message(), "Missing environment variable: PRIVATE_KEY");
}

#[test]
fn datetime_parsing() {
    assert_eq!(parse_datetime("2024-01-01T00:00:00Z"), Some(1_704_067_200_000));
    assert_eq!(parse_datetime("2024-01-01T02:00:00+02:00"), Some(1_704_067_200_000));
    assert_eq!(parse_datetime("yesterday"), None);
}

fn market(slug: &str, end: Option<i64>, price: i64, active: bool, closed: bool) -> GammaMarket {
    GammaMarket {
        question: "q".to_string(),
        slug: slug.to_string(),
        end_date: end,
        outcomes: vec!["Yes".to_string(), "No".to_string()],
        outcome_prices: vec![Decimal::new(price, 2), Decimal::new(100 - price, 2)],
        clob_token_ids: vec!["1".to_string(), "2".to_string()],
        active,
        closed,
        liquidity: None,
        category: None,
    }
}

#[test]
fn candidate_selection() {
    let now = 1_700_000_000_000i64;
    let hour = 3_600_000i64;
    let ms = vec![
        market("a", Some(now + hour), 95, true, false),
        market("b", Some(now + 100 * hour), 95, true, false),
        market("c", Some(now + hour), 60, true, false),
        market("d", Some(now + hour), 95, true, true),
        market("e", Some(now - hour), 95, true, false),
        market("f", Some(now + 2 * hour), 92, true, false),
    ];
    let picked = select_candidates(ms, now, Decimal::new(72, 0), Decimal::new(90, 2));
    let slugs: Vec<&str> = picked.iter().map(|m| m.slug.as_str()).collect();
    assert_eq!(slugs, vec!["a", "f"]);
}

#[test]
fn merge_keeps_first_of_each_slug() {
    let a = vec![market("x", None, 50, true, false), market("y", None, 50, true, false)];
    let b = vec![market("y", None, 70, true, false), market("z", None, 50, true, false), market("x", None, 10, true, false)];
    let merged = merge_unique_by_slug(a, b);
    let slugs: Vec<&str> = merged.iter().map(|m| m.slug.as_str()).collect();
    assert_eq!(slugs, vec!["x", "y", "z"]);
    assert_eq!(merged[1].outcome_prices[0], Decimal::new(50, 2));
}

#[test]
fn market_assembly() {
    let s = |x: &str| x.to_string();
    let m = pmengine::gamma::assemble_market(
        s("Q?"),
        s("q"),
        None,
        Some(s("2024-01-01T00:00:00Z")),
        vec![s("Yes"), s("No")],
        vec![s("0.95"), s("0.05")],
        vec![s("1"), s("2")],
        true,
        false,
        Some(s("1234.5")),
        None,
    )
    .unwrap();
    assert_eq!(m.end_date, Some(1_704_067_200_000));
    assert_eq!(m.outcome_prices, vec![Decimal::new(95, 2), Decimal::new(5, 2)]);
    assert_eq!(m.liquidity, Some(Decimal::new(12345, 1)));
    let no_prices = pmengine::gamma::assemble_market(
        s("Q?"), s("q"), None, None, vec![], vec![s("x")], vec![s("1")], true, false, None, None,
    );
    assert!(matches!(no_prices, Err(GammaError::InvalidData(_))));
    let no_tokens = pmengine::gamma::assemble_market(
        s("Q?"), s("q"), None, None, vec![], vec![s("0.5")], vec![], true, false, None, None,
    );
    assert!(matches!(no_tokens, Err(GammaError::InvalidData(_))));
}

#[test]
fn integer_text_extremes() {
    assert_eq!(pmengine::client::integer_text(i64::MIN), i64::MIN.to_string());
    assert_eq!(pmengine::client::integer_text(0), "0");
    assert_eq!(pmengine::client::integer_text(1234567890), "1234567890");
}

#[test]
fn hex_key_upper_case() {
    let hex64 = "AB".repeat(32);
    assert_eq!(private_key_bytes(&hex64).unwrap(), vec![0xABu8; 32]);
}

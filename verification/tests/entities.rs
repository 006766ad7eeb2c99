//! Entity collections, authentication answers, and the endpoint.

use glowmarkt::api::{
    resolve_entities, AuthResponse, ErrorResponse, InvalidAuthResponse, InvalidValidateResponse,
    ValidAuthResponse, ValidValidateResponse, ValidateResponse,
};
use glowmarkt::endpoint::{
    login_decision, readings_path, readings_query, GlowmarktEndpoint, LoginPlan, APPLICATION_ID,
    BASE_URL,
};
use glowmarkt::error::{Error, ErrorKind};
use glowmarkt::period::ReadingPeriod;
use glowmarkt::strmap::{values, StringMap};

fn api_error(message: &str) -> Error {
    Error::new(ErrorKind::Api, message.to_string())
}

#[test]
fn maps_keep_insertion_order_and_unique_keys() {
    let mut map: StringMap<u32> = StringMap::new();
    map.insert("b".to_string(), 2);
    map.insert("a".to_string(), 1);
    map.insert("c".to_string(), 3);
    assert_eq!(map.len(), 3);
    assert_eq!(map.get("a"), Some(&1));
    assert_eq!(map.get("b"), Some(&2));
    assert_eq!(map.get("missing"), None);
    assert_eq!(values(map), vec![2, 1, 3]);
}

#[test]
fn valid_auth_answers_pass_validation() {
    let response = AuthResponse::Valid(ValidAuthResponse {
        valid: true,
        token: "token-1".to_string(),
        expiry: 1700000000,
    });
    let validated = response.validate().unwrap();
    assert_eq!(validated.token, "token-1");
    assert_eq!(validated.expiry, 1700000000);
}

#[test]
fn rejected_auth_answers_fail_with_not_authenticated() {
    let unflagged = AuthResponse::Valid(ValidAuthResponse {
        valid: false,
        token: "token-1".to_string(),
        expiry: 0,
    });
    let err = unflagged.validate().unwrap_err();
    assert_eq!(err.kind, ErrorKind::NotAuthenticated);
    assert_eq!(err.message, "Authentication error");

    let refused = AuthResponse::Invalid(InvalidAuthResponse {
        error: ErrorResponse { message: "bad password".to_string() },
    });
    let err = refused.validate().unwrap_err();
    assert_eq!(err.kind, ErrorKind::NotAuthenticated);
    assert_eq!(err.message, "bad password");
}

#[test]
fn token_checks_validate_the_same_way() {
    let good = ValidateResponse::Valid(ValidValidateResponse { valid: true, expiry: 10 });
    assert_eq!(good.validate().unwrap().expiry, 10);

    let bad = ValidateResponse::Invalid(InvalidValidateResponse {
        error: ErrorResponse { message: "expired".to_string() },
    });
    let err = bad.validate().unwrap_err();
    assert_eq!(err.kind, ErrorKind::NotAuthenticated);
    assert_eq!(err.message, "expired");
}

#[test]
fn resolution_is_all_or_nothing() {
    let devices: StringMap<glowmarkt::api::Device> = StringMap::new();
    let resources: StringMap<glowmarkt::api::Resource> = StringMap::new();
    assert!(resolve_entities(Ok(devices), Ok(resources)).is_ok());

    let devices: StringMap<glowmarkt::api::Device> = StringMap::new();
    let failed = resolve_entities(Ok(devices), Err(api_error("resources down")));
    assert_eq!(failed.unwrap_err().message, "resources down");

    let resources: StringMap<glowmarkt::api::Resource> = StringMap::new();
    let failed = resolve_entities(Err(api_error("devices down")), Ok(resources));
    assert_eq!(failed.unwrap_err().message, "devices down");
}

#[test]
fn a_checked_token_wins_the_login() {
    let plan = login_decision(
        Some(Ok(ValidValidateResponse { valid: true, expiry: 1 })),
        Some("user".to_string()),
        Some("pass".to_string()),
    );
    assert!(matches!(plan, LoginPlan::UseToken));
}

#[test]
fn a_transport_failure_aborts_the_login() {
    let plan = login_decision(
        Some(Err(api_error("connection refused"))),
        Some("user".to_string()),
        Some("pass".to_string()),
    );
    match plan {
        LoginPlan::Fail(message) => assert_eq!(message, "connection refused"),
        _ => panic!("expected the login to fail"),
    }
}

#[test]
fn a_stale_token_falls_back_to_credentials() {
    let stale = Error::new(ErrorKind::NotAuthenticated, "expired".to_string());
    let plan = login_decision(
        Some(Err(stale)),
        Some("user".to_string()),
        Some("pass".to_string()),
    );
    match plan {
        LoginPlan::Authenticate(username, password) => {
            assert_eq!(username, "user");
            assert_eq!(password, "pass");
        },
        _ => panic!("expected an authentication plan"),
    }
}

#[test]
fn missing_credentials_fail_with_the_fixed_message() {
    let plan = login_decision(None, Some("user".to_string()), None);
    match plan {
        LoginPlan::Fail(message) => {
            assert_eq!(message, "Must pass username and password.")
        },
        _ => panic!("expected the login to fail"),
    }
}

#[test]
fn urls_join_the_base_and_the_path() {
    let endpoint = GlowmarktEndpoint::default();
    assert_eq!(endpoint.base_url, BASE_URL);
    assert_eq!(endpoint.app_id, APPLICATION_ID);
    assert_eq!(
        endpoint.url("auth"),
        "https://api.glowmarkt.com/api/v0-1/auth"
    );
    assert_eq!(readings_path("R1"), "resource/R1/readings");
}

#[test]
fn readings_queries_carry_the_fixed_window_shape() {
    let query = readings_query(0, 1800, ReadingPeriod::HalfHour);
    let pairs: Vec<(String, String)> = query;
    assert_eq!(pairs.len(), 5);
    assert_eq!(pairs[0], ("from".to_string(), "1970-01-01T00:00:00".to_string()));
    assert_eq!(pairs[1], ("to".to_string(), "1970-01-01T00:30:00".to_string()));
    assert_eq!(pairs[2], ("period".to_string(), "PT30M".to_string()));
    assert_eq!(pairs[3], ("offset".to_string(), "0".to_string()));
    assert_eq!(pairs[4], ("function".to_string(), "sum".to_string()));
}

#[test]
fn period_codes_match_the_remote_grammar() {
    assert_eq!(ReadingPeriod::HalfHour.code(), "PT30M");
    assert_eq!(ReadingPeriod::Hour.code(), "PT1H");
    assert_eq!(ReadingPeriod::Day.code(), "P1D");
    assert_eq!(ReadingPeriod::Week.code(), "P1W");
    assert_eq!(ReadingPeriod::HalfHour.length_secs(), 1800);
}

use fizzgig::ident::generate_id;
use fizzgig::ident::generate_pin;
use fizzgig::ident::decimal_text;
use fizzgig::relay::bearer_token;
use fizzgig::relay::get_app_config;
use fizzgig::ident::parse_pin;
use fizzgig::relay::root;
use fizzgig::relay::token_expiry;
use fizzgig::relay::SyncJobs;
use fizzgig::sdk::authorization_header;
use fizzgig::sdk::pull_url;
use fizzgig::sdk::push_s_url;
use fizzgig::sdk::push_url;
use fizzgig::sdk::reserve_pin_url;
use fizzgig::sdk::LandStrider;
use fizzgig::sdk::LandStriderConfig;
use fizzgig::sdk::PullErr;
use fizzgig::sdk::PushErr;
use fizzgig::sdk::PushResponse;
use fizzgig::sdk::ReservePinResponse;

#[test]
fn relay_round_trip_is_single_shot() {
    let mut jobs = SyncJobs::new();
    let pin = generate_pin();
    jobs.reserve_pin(&pin, "1234").unwrap();
    assert!(jobs.has_job(&pin));
    jobs.push_s(&pin, b"{\"uuid\":\"a\"}\n{\"uuid\":\"b\"}".to_vec()).unwrap();

    let body = jobs.pull(&pin, "1234").unwrap();
    assert_eq!(body, b"{\"uuid\":\"a\"}\n{\"uuid\":\"b\"}".to_vec());
    assert!(!jobs.has_job(&pin));

    let again = jobs.pull(&pin, "1234").unwrap_err();
    assert_eq!(again.status, 400);
    assert_eq!(again.body, "invalid credentials");
}

#[test]
fn pull_with_the_wrong_password_keeps_the_job() {
    let mut jobs = SyncJobs::new();
    jobs.reserve_pin("123456", "right").unwrap();
    jobs.push_s("123456", b"data".to_vec()).unwrap();

    let refused = jobs.pull("123456", "wrong").unwrap_err();
    assert_eq!(refused.status, 400);
    assert_eq!(refused.body, "invalid credentials");
    assert!(jobs.has_job("123456"));

    assert_eq!(jobs.pull("123456", "right").unwrap(), b"data".to_vec());
}

#[test]
fn push_needs_a_reserved_job_and_works_once() {
    let mut jobs = SyncJobs::new();
    let missing = jobs.push_s("654321", b"x".to_vec()).unwrap_err();
    assert_eq!((missing.status, missing.body.as_str()), (400, "Token no longer valid"));
    let no_pin = jobs.push_s("65432", b"x".to_vec()).unwrap_err();
    assert_eq!((no_pin.status, no_pin.body.as_str()), (400, "Token no longer valid"));

    jobs.reserve_pin("654321", "pw").unwrap();
    jobs.push_s("654321", b"x".to_vec()).unwrap();
    let used = jobs.push_s("654321", b"y".to_vec()).unwrap_err();
    assert_eq!(
        (used.status, used.body.as_str()),
        (400, "Push token already used.  Please reserve a new one")
    );
    assert_eq!(jobs.pull("654321", "pw").unwrap(), b"x".to_vec());
}

#[test]
fn pull_before_the_push_loses_the_job() {
    let mut jobs = SyncJobs::new();
    jobs.reserve_pin("100000", "pw").unwrap();
    let early = jobs.pull("100000", "pw").unwrap_err();
    assert_eq!(early.status, 400);
    assert_eq!(early.body, "Data is not ready.  It is possible it has already been pulled.");
    assert!(!jobs.has_job("100000"));
}

#[test]
fn reserve_refuses_what_is_no_pin() {
    let mut jobs = SyncJobs::new();
    assert_eq!(jobs.reserve_pin("12345", "pw").unwrap_err().status, 500);
    assert_eq!(jobs.reserve_pin("012345", "pw").unwrap_err().status, 500);
    assert_eq!(jobs.reserve_pin("12a456", "pw").unwrap_err().status, 500);
}

#[test]
fn pins_have_six_digits_and_parse_back() {
    for _ in 0..50 {
        let pin = generate_pin();
        assert_eq!(pin.len(), 6);
        let number: u32 = pin.parse().unwrap();
        assert!((100_000..=999_999).contains(&number));
        assert_eq!(parse_pin(&pin), Some(number));
    }
    assert_eq!(parse_pin("100000"), Some(100_000));
    assert_eq!(parse_pin("999999"), Some(999_999));
    assert_eq!(parse_pin("099999"), None);
    assert_eq!(parse_pin("1000000"), None);
    assert_eq!(parse_pin("+12345"), None);
    assert_eq!(parse_pin(""), None);
    assert_eq!(decimal_text(0), "0");
    assert_eq!(decimal_text(3001), "3001");
    assert_eq!(decimal_text(u32::MAX), "4294967295");
}

#[test]
fn ids_are_32_upper_case_hex_digits() {
    let a = generate_id();
    let b = generate_id();
    assert_eq!(a.len(), 32);
    assert!(a.chars().all(|c| c.is_ascii_digit() || ('A'..='F').contains(&c)));
    assert_ne!(a, b);
}

#[test]
fn bearer_token_is_what_follows_the_prefix() {
    assert_eq!(bearer_token(Some("Bearer abc.def.ghi")).unwrap(), "abc.def.ghi");
    assert_eq!(bearer_token(Some("Bearer ")).unwrap(), "");
    let missing = bearer_token(None).unwrap_err();
    assert_eq!((missing.status, missing.body.as_str()), (400, "Authorization header is missing"));
    let invalid = bearer_token(Some("Basic abc")).unwrap_err();
    assert_eq!((invalid.status, invalid.body.as_str()), (400, "Invalid bearer token"));
    let short = bearer_token(Some("Bearer")).unwrap_err();
    assert_eq!((short.status, short.body.as_str()), (400, "Invalid bearer token"));
    assert_eq!(bearer_token(Some(&authorization_header("t0ken"))).unwrap(), "t0ken");
}

#[test]
fn settings_fall_back_to_the_default_secret() {
    assert_eq!(get_app_config(None).jwt_pin_secret(), "LAND_STRIDER_PIN_SECRET");
    assert_eq!(get_app_config(Some("s3cret".to_string())).jwt_pin_secret(), "s3cret");
    assert_eq!(token_expiry(1_700_000_000), 1_700_086_400);
    assert_eq!(token_expiry(u64::MAX - 5), u64::MAX);
    assert_eq!(root(), "Hello, World!");
}

#[test]
fn client_addresses() {
    let config = LandStriderConfig::new("localhost", 3001);
    assert_eq!(config.get_base_url(), "http://localhost:3001");
    assert_eq!(pull_url(&config, "123456", "pw"), "http://localhost:3001/pull?pin=123456&pw=pw");
    assert_eq!(push_s_url(&config), "http://localhost:3001/push_s");
    assert_eq!(push_url(&config), "http://localhost:3001/push");
    assert_eq!(reserve_pin_url(&config), "http://localhost:3001/reserve_pin");
    let client = LandStrider::new(config);
    assert_eq!(client.settings().get_base_url(), "http://localhost:3001");
}

#[test]
fn client_errors_and_answers() {
    assert_eq!(PushErr::Network("down".to_string()).to_string(), "Network request failed: down");
    assert_eq!(
        PushErr::Server("invalid credentials".to_string()).to_string(),
        "Server responded with a failure: invalid credentials"
    );
    assert_eq!(PushErr::Parse("eof".to_string()).to_string(), "Failed to parse push response: eof");
    assert_eq!(
        PullErr::StreamItemParse("bad".to_string()).to_string(),
        "Failed to parse stream data: bad"
    );
    assert_eq!(
        PullErr::StreamItemProcess("bad".to_string()).to_string(),
        "Failed to process stream item: bad"
    );
    assert_eq!(PullErr::Network("x".to_string()).to_string(), "Network request failed: x");
    assert_eq!(PullErr::Server("x".to_string()).to_string(), "Server responded with a failure: x");
    let reserved =
        ReservePinResponse { success: true, token: "t".to_string(), pin: "123456".to_string() };
    let done = PushResponse::completed(reserved);
    assert!(done.success);
    assert_eq!(done.pin, "123456");
}

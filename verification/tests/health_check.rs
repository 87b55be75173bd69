use zero2prod::clock::now_timestamp_millis;
use zero2prod::routes::health_check::health_check;
use zero2prod::routes::subscriptions::subscribe;
use zero2prod::store::Store;
use zero2prod::uid::{braced_string, hyphenated_string, parse_id, simple_string, urn_string};

#[test]
fn health_check_works() {
    let response = health_check();

    assert!(200 <= response.status && response.status < 300);
    assert_eq!(0, response.body.len());
}

#[test]
fn subscribe_returns_a_200_for_valid_data() {
    let mut store = Store::new();

    let body = "name=yuri&email=yuri%40foo.org";

    let response = subscribe(&mut store, body);

    assert_eq!(200, response.status);

    // the direct-store analogue of `select email, name from subscriptions`
    assert_eq!(1, store.len());
    let saved = store.row_at(0);

    assert_eq!(saved.email, "yuri@foo.org");
    assert_eq!(saved.name, "yuri");
}

#[test]
fn subscribe_returns_a_400_when_data_is_missing() {
    let test_cases = vec![
        ("name=yuri", "missing the email"),
        ("email=yuri%40leikind.org", "missing the name"),
        ("", "missing the email and the name"),
    ];

    for (invalid_body, error_message) in test_cases {
        let mut store = Store::new();
        let response = subscribe(&mut store, invalid_body);

        assert_eq!(
            400, response.status,
            "The API did not fail with 400 when the payload was {}",
            error_message
        );
        assert_eq!(0, store.len());
    }
}

#[test]
fn test_uuids() {
    let u: u128 = parse_id("a1a2a3a4b1b2c1c2d1d2d3d4d5d6d7d8").expect("Failed to parse UUID");

    assert_eq!(simple_string(u), "a1a2a3a4b1b2c1c2d1d2d3d4d5d6d7d8");
    assert_eq!(hyphenated_string(u), "a1a2a3a4-b1b2-c1c2-d1d2-d3d4d5d6d7d8");
    assert_eq!(braced_string(u), "{a1a2a3a4-b1b2-c1c2-d1d2-d3d4d5d6d7d8}");
    assert_eq!(urn_string(u), "urn:uuid:a1a2a3a4-b1b2-c1c2-d1d2-d3d4d5d6d7d8");
}

#[test]
fn test_utc_lib() {
    let a = now_timestamp_millis();
    println!("{}", a);
}

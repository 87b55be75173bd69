use zero2prod::harness::{create_database_statement, database_name, migration_statement};
use zero2prod::uid::{braced_string, hyphenated_string, parse_id, simple_string, urn_string};

#[test]
fn every_rendering_parses_back_to_the_same_id() {
    let id: u128 = 0x0123_4567_89ab_cdef_0011_2233_4455_6677;
    assert_eq!(parse_id(&simple_string(id)), Some(id));
    assert_eq!(parse_id(&hyphenated_string(id)), Some(id));
    assert_eq!(parse_id(&braced_string(id)), Some(id));
    assert_eq!(parse_id(&urn_string(id)), Some(id));
}

#[test]
fn upper_case_hex_digits_are_accepted() {
    assert_eq!(
        parse_id("A1A2A3A4B1B2C1C2D1D2D3D4D5D6D7D8"),
        parse_id("a1a2a3a4b1b2c1c2d1d2d3d4d5d6d7d8")
    );
    assert_eq!(
        parse_id("A1A2A3A4-B1B2-C1C2-D1D2-D3D4D5D6D7D8"),
        Some(0xa1a2a3a4b1b2c1c2d1d2d3d4d5d6d7d8)
    );
}

#[test]
fn malformed_identifier_texts_are_rejected() {
    assert_eq!(parse_id(""), None);
    assert_eq!(parse_id("a1a2"), None);
    assert_eq!(parse_id("g1a2a3a4b1b2c1c2d1d2d3d4d5d6d7d8"), None);
    assert_eq!(parse_id("a1a2a3a4b1b2c1c2d1d2d3d4d5d6d7d"), None);
    assert_eq!(parse_id("a1a2a3a4_b1b2_c1c2_d1d2_d3d4d5d6d7d8"), None);
    assert_eq!(parse_id("[a1a2a3a4-b1b2-c1c2-d1d2-d3d4d5d6d7d8]"), None);
    assert_eq!(parse_id("urn:uuid:a1a2a3a4b1b2c1c2d1d2d3d4d5d6d7d8"), None);
}

#[test]
fn distinct_run_ids_give_distinct_database_names() {
    let a = database_name(1);
    let b = database_name(2);
    assert_ne!(a, b);
    assert_eq!(a, "00000000-0000-0000-0000-000000000001");
}

#[test]
fn harness_statements_are_exact() {
    assert_eq!(
        create_database_statement("db-one"),
        "create database \"db-one\";"
    );
    assert_eq!(
        migration_statement(),
        "create table subscriptions (id uuid primary key, email text not null, name text not null, subscribed_at timestamptz not null);"
    );
}

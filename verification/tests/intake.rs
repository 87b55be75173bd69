use zero2prod::form::{parse_form, DecodeError};
use zero2prod::routes::subscriptions::subscribe;
use zero2prod::store::Store;
use zero2prod::validation::{validate, RejectionReason};

#[test]
fn accepted_body_decodes_escapes_and_plus_signs() {
    let mut store = Store::new();
    let response = subscribe(&mut store, "name=anna+maria&email=a%2Bb%40foo.org");
    assert_eq!(200, response.status);
    let saved = store.row_at(0);
    assert_eq!(saved.name, "anna maria");
    assert_eq!(saved.email, "a+b@foo.org");
}

#[test]
fn empty_values_are_accepted_as_present() {
    // Presence alone is validated: an empty value, or a field with no `=`
    // at all, still counts as present.
    let mut store = Store::new();
    let response = subscribe(&mut store, "name&email=");
    assert_eq!(200, response.status);
    let saved = store.row_at(0);
    assert_eq!(saved.name, "");
    assert_eq!(saved.email, "");
}

#[test]
fn unknown_keys_are_ignored() {
    let mut store = Store::new();
    let response = subscribe(&mut store, "tier=gold&name=n&email=e&x=y");
    assert_eq!(200, response.status);
    assert_eq!(1, store.len());
    let saved = store.row_at(0);
    assert_eq!(saved.name, "n");
    assert_eq!(saved.email, "e");
}

#[test]
fn invalid_escapes_are_kept_literally() {
    let mut store = Store::new();
    let response = subscribe(&mut store, "name=%zz%4&email=50%25");
    assert_eq!(200, response.status);
    let saved = store.row_at(0);
    assert_eq!(saved.name, "%zz%4");
    assert_eq!(saved.email, "50%");
}

#[test]
fn duplicate_field_is_rejected() {
    let mut store = Store::new();
    let response = subscribe(&mut store, "name=a&name=b&email=c");
    assert_eq!(400, response.status);
    assert_eq!(0, store.len());
}

#[test]
fn parse_form_reports_a_duplicate_field() {
    let r = parse_form("email=a&email=b");
    assert_eq!(r.unwrap_err(), DecodeError::DuplicateField);
}

#[test]
fn parse_form_takes_the_first_value_of_a_key() {
    let f = parse_form("name=first&email=e").unwrap();
    assert_eq!(f.name.as_deref(), Some("first"));
    assert_eq!(f.email.as_deref(), Some("e"));
}

#[test]
fn validate_rejects_a_missing_field() {
    let f = parse_form("name=only").unwrap();
    assert_eq!(f.name.as_deref(), Some("only"));
    assert_eq!(f.email, None);
    let r = validate(f);
    assert_eq!(r.unwrap_err(), RejectionReason::MissingField);
}

#[test]
fn validate_accepts_both_fields_unchanged() {
    let f = parse_form("email=a%40b&name=c").unwrap();
    let d = validate(f).unwrap();
    assert_eq!(d.email, "a@b");
    assert_eq!(d.name, "c");
}

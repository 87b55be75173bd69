use zero2prod::routes::subscriptions::{response_for_write, subscribe};
use zero2prod::store::{Store, WriteError};

#[test]
fn two_valid_posts_give_two_distinct_rows() {
    let mut store = Store::new();
    assert_eq!(200, subscribe(&mut store, "name=a&email=a%40x.org").status);
    assert_eq!(200, subscribe(&mut store, "name=b&email=b%40x.org").status);
    assert_eq!(2, store.len());
    let id0 = store.row_at(0).id;
    let id1 = store.row_at(1).id;
    assert_ne!(id0, id1);
    // the first row stands unchanged after the second write
    assert_eq!(store.row_at(0).email, "a@x.org");
    assert_eq!(store.row_at(0).name, "a");
}

#[test]
fn same_email_twice_gives_two_separate_rows() {
    // No uniqueness of emails is enforced: resubmitting is not idempotent.
    let mut store = Store::new();
    let body = "name=yuri&email=yuri%40foo.org";
    assert_eq!(200, subscribe(&mut store, body).status);
    assert_eq!(200, subscribe(&mut store, body).status);
    assert_eq!(2, store.len());
    assert_eq!(2, store.count_with_email("yuri@foo.org"));
    assert_ne!(store.row_at(0).id, store.row_at(1).id);
}

#[test]
fn an_inserted_row_is_retrievable_by_its_id() {
    let mut store = Store::new();
    assert_eq!(200, subscribe(&mut store, "name=yuri&email=yuri%40foo.org").status);
    let id = store.row_at(0).id;
    let found = store.find_by_id(id).expect("row not found by id");
    assert_eq!(found.email, "yuri@foo.org");
    assert_eq!(found.name, "yuri");
    assert!(store.find_by_id(id.wrapping_add(1)).is_none());
}

#[test]
fn fresh_ids_carry_the_version_and_variant_bits() {
    let mut store = Store::new();
    assert_eq!(200, subscribe(&mut store, "name=n&email=e").status);
    let id = store.row_at(0).id;
    assert_eq!((id >> 76) & 0xf, 4);
    assert_eq!((id >> 62) & 0x3, 2);
}

#[test]
fn subscribed_at_is_a_recent_instant() {
    let mut store = Store::new();
    assert_eq!(200, subscribe(&mut store, "name=n&email=e").status);
    // milliseconds since the epoch: after 2020, before 2200
    let at = store.row_at(0).subscribed_at;
    assert!(at > 1_600_000_000_000);
    assert!(at < 7_258_000_000_000);
}

#[test]
fn rejected_bodies_leave_the_store_untouched() {
    let mut store = Store::new();
    assert_eq!(200, subscribe(&mut store, "name=n&email=e").status);
    assert_eq!(400, subscribe(&mut store, "name=onlyname").status);
    assert_eq!(1, store.len());
}

#[test]
fn write_outcomes_map_to_bare_status_codes() {
    let ok: Result<(), WriteError> = Ok(());
    let r = response_for_write(&ok);
    assert_eq!(200, r.status);
    assert_eq!(0, r.body.len());

    let failed: Result<(), WriteError> = Err(WriteError { cause: String::from("store unreachable") });
    let r = response_for_write(&failed);
    assert_eq!(500, r.status);
    assert_eq!(0, r.body.len());
}

use drinktrack::dispatch::{handle_request, AppStateT, DecodeFailure, Request};
use drinktrack::error::AppError;
use drinktrack::ident::Identifier;
use drinktrack::record::{Kind, Record};
use drinktrack::store::Store;

fn rec(brand: &str, size: u32, time: &str) -> Record {
    Record { brand: brand.to_string(), size, time: time.to_string() }
}

fn fresh_token() -> String {
    "generated-token".to_string()
}

#[test]
fn create_then_list_contains_exactly_the_record() {
    let mut store = Store::new(Kind::Coffee);
    let id = store.create(rec("Acme", 12, "2024-01-01T00:00:00Z")).unwrap();
    let all = store.list_all();
    assert_eq!(all.len(), 1);
    assert_eq!(all[0].0, id);
    assert_eq!(all[0].1.brand, "Acme");
    assert_eq!(all[0].1.size, 12);
    assert_eq!(all[0].1.time, "2024-01-01T00:00:00Z");
    // the returned identifier resolves to that entry for update and delete
    assert!(store.update(id.num, rec("Acme", 13, "2024-01-01T00:00:00Z")).is_ok());
    assert!(store.delete(id.num).is_ok());
}

#[test]
fn update_replaces_the_single_record() {
    let mut store = Store::new(Kind::Beer);
    let id = store.create(rec("Old", 5, "t1")).unwrap();
    store.update(id.num, rec("New", 9, "t2")).unwrap();
    let all = store.list_all();
    assert_eq!(all.len(), 1);
    assert_eq!(all[0].0, id);
    assert_eq!(all[0].1.brand, "New");
    assert_eq!(all[0].1.size, 9);
    assert_eq!(all[0].1.time, "t2");
}

#[test]
fn delete_removes_and_later_mutations_are_store_failures() {
    let mut store = Store::new(Kind::Coffee);
    let id = store.create(rec("Acme", 12, "t")).unwrap();
    store.delete(id.num).unwrap();
    assert_eq!(store.list_all().len(), 0);
    let e1 = store.update(id.num, rec("Acme", 13, "t")).unwrap_err();
    assert!(matches!(e1, AppError::StoreFailure { .. }));
    let e2 = store.delete(id.num).unwrap_err();
    assert!(matches!(e2, AppError::StoreFailure { .. }));
}

#[test]
fn create_fails_only_when_identifiers_run_out() {
    let mut store = Store { kind: Kind::Beer, next: u64::MAX, entries: Vec::new() };
    let e = store.create(rec("Last", 1, "t")).unwrap_err();
    assert!(matches!(e, AppError::StoreFailure { .. }));
    assert_eq!(store.list_all().len(), 0);
}

#[test]
fn coffee_crud_scenario_on_the_wire() {
    let mut state = AppStateT::new();

    let r = handle_request(
        &mut state,
        Request::Create(Kind::Coffee, Ok(rec("Acme", 12, "2024-01-01T00:00:00Z"))),
        None,
        fresh_token(),
    );
    assert_eq!(r.status, 200);
    assert_eq!(r.body, "");

    let r = handle_request(&mut state, Request::List(Kind::Coffee), None, fresh_token());
    assert_eq!(r.status, 200);
    assert_eq!(
        r.body,
        "{\"coffees\":[{\"id\":\"coffee@0\",\"coffee\":{\"brand\":\"Acme\",\"size\":12,\"time\":\"2024-01-01T00:00:00Z\"}}]}"
    );

    let r = handle_request(
        &mut state,
        Request::Update(
            Kind::Coffee,
            "coffee@0".to_string(),
            Ok(rec("Acme", 16, "2024-01-01T00:00:01Z")),
        ),
        None,
        fresh_token(),
    );
    assert_eq!(r.status, 200);
    assert_eq!(r.body, "");

    let r = handle_request(&mut state, Request::List(Kind::Coffee), None, fresh_token());
    assert_eq!(
        r.body,
        "{\"coffees\":[{\"id\":\"coffee@0\",\"coffee\":{\"brand\":\"Acme\",\"size\":16,\"time\":\"2024-01-01T00:00:01Z\"}}]}"
    );

    let r = handle_request(
        &mut state,
        Request::Delete(Kind::Coffee, "coffee@0".to_string()),
        None,
        fresh_token(),
    );
    assert_eq!(r.status, 200);
    assert_eq!(r.body, "");

    let r = handle_request(&mut state, Request::List(Kind::Coffee), None, fresh_token());
    assert_eq!(r.body, "{\"coffees\":[]}");
}

#[test]
fn malformed_identifier_is_invalid_input_and_changes_nothing() {
    let mut state = AppStateT::new();
    handle_request(
        &mut state,
        Request::Create(Kind::Beer, Ok(rec("Pils", 5, "t"))),
        None,
        fresh_token(),
    );

    let r = handle_request(
        &mut state,
        Request::Update(Kind::Beer, "not-an-id".to_string(), Ok(rec("Ale", 6, "t"))),
        None,
        fresh_token(),
    );
    assert_eq!(r.status, 400);
    assert_eq!(
        r.body,
        "{\"message\":\"invalid identifier: expected a kind tag, '@' and a number\"}"
    );

    let r = handle_request(
        &mut state,
        Request::Delete(Kind::Beer, "".to_string()),
        None,
        fresh_token(),
    );
    assert_eq!(r.status, 400);

    let r = handle_request(&mut state, Request::List(Kind::Beer), None, fresh_token());
    assert_eq!(
        r.body,
        "{\"beers\":[{\"id\":\"beer@0\",\"beer\":{\"brand\":\"Pils\",\"size\":5,\"time\":\"t\"}}]}"
    );
}

#[test]
fn live_identifier_of_the_wrong_kind_is_invalid_input() {
    let mut state = AppStateT::new();
    handle_request(
        &mut state,
        Request::Create(Kind::Beer, Ok(rec("Pils", 5, "t"))),
        None,
        fresh_token(),
    );
    let r = handle_request(
        &mut state,
        Request::Update(Kind::Coffee, "beer@0".to_string(), Ok(rec("Acme", 1, "t"))),
        None,
        fresh_token(),
    );
    assert_eq!(r.status, 400);
    assert_eq!(
        r.body,
        "{\"message\":\"identifier belongs to another resource kind\"}"
    );
}

#[test]
fn well_formed_but_dead_identifier_is_a_store_failure() {
    let mut state = AppStateT::new();
    let r = handle_request(
        &mut state,
        Request::Update(Kind::Beer, "beer@3".to_string(), Ok(rec("Ale", 6, "t"))),
        None,
        fresh_token(),
    );
    assert_eq!(r.status, 500);
    assert_eq!(
        r.body,
        "{\"message\":\"no record lives under this identifier\"}"
    );
}

#[test]
fn bad_body_is_reported_with_the_decoder_detail_and_stores_nothing() {
    let mut state = AppStateT::new();
    let r = handle_request(
        &mut state,
        Request::Create(
            Kind::Coffee,
            Err(DecodeFailure { status: 422, message: "missing field `size`".to_string() }),
        ),
        None,
        fresh_token(),
    );
    assert_eq!(r.status, 422);
    assert_eq!(r.body, "{\"message\":\"missing field `size`\"}");

    let r = handle_request(&mut state, Request::List(Kind::Coffee), None, fresh_token());
    assert_eq!(r.body, "{\"coffees\":[]}");
}

#[test]
fn correlation_echoes_a_well_formed_inbound_token() {
    let mut state = AppStateT::new();
    let inbound = "client-token-17".to_string();
    let r = handle_request(
        &mut state,
        Request::List(Kind::Coffee),
        Some(&inbound),
        fresh_token(),
    );
    assert_eq!(r.correlation, "client-token-17");
}

#[test]
fn correlation_falls_back_to_the_generated_token() {
    let mut state = AppStateT::new();
    let r = handle_request(&mut state, Request::List(Kind::Beer), None, fresh_token());
    assert_eq!(r.correlation, "generated-token");

    let empty = String::new();
    let r = handle_request(&mut state, Request::List(Kind::Beer), Some(&empty), fresh_token());
    assert_eq!(r.correlation, "generated-token");

    let control = "bad\u{7}token".to_string();
    let r = handle_request(&mut state, Request::List(Kind::Beer), Some(&control), fresh_token());
    assert_eq!(r.correlation, "generated-token");
}

#[test]
fn correlation_is_carried_on_failures_too() {
    let mut state = AppStateT::new();
    let inbound = "trace-me".to_string();
    let r = handle_request(
        &mut state,
        Request::Delete(Kind::Coffee, "junk".to_string()),
        Some(&inbound),
        fresh_token(),
    );
    assert_eq!(r.status, 400);
    assert_eq!(r.correlation, "trace-me");
}

#[test]
fn list_bodies_escape_string_fields() {
    let mut state = AppStateT::new();
    handle_request(
        &mut state,
        Request::Create(Kind::Coffee, Ok(rec("A\"B\\C\nD", 1, "t"))),
        None,
        fresh_token(),
    );
    let r = handle_request(&mut state, Request::List(Kind::Coffee), None, fresh_token());
    assert_eq!(
        r.body,
        "{\"coffees\":[{\"id\":\"coffee@0\",\"coffee\":{\"brand\":\"A\\\"B\\\\C\\u000aD\",\"size\":1,\"time\":\"t\"}}]}"
    );
}

#[test]
fn list_renders_several_entries_in_store_order() {
    let mut state = AppStateT::new();
    handle_request(
        &mut state,
        Request::Create(Kind::Beer, Ok(rec("Pils", 5, "t1"))),
        None,
        fresh_token(),
    );
    handle_request(
        &mut state,
        Request::Create(Kind::Beer, Ok(rec("Ale", 6, "t2"))),
        None,
        fresh_token(),
    );
    let r = handle_request(&mut state, Request::List(Kind::Beer), None, fresh_token());
    assert_eq!(
        r.body,
        "{\"beers\":[{\"id\":\"beer@0\",\"beer\":{\"brand\":\"Pils\",\"size\":5,\"time\":\"t1\"}},{\"id\":\"beer@1\",\"beer\":{\"brand\":\"Ale\",\"size\":6,\"time\":\"t2\"}}]}"
    );
}

#[test]
fn deleting_the_middle_record_keeps_the_others_in_order() {
    let mut store = Store::new(Kind::Coffee);
    let a = store.create(rec("A", 1, "t")).unwrap();
    let b = store.create(rec("B", 2, "t")).unwrap();
    let c = store.create(rec("C", 3, "t")).unwrap();
    store.delete(b.num).unwrap();
    let all = store.list_all();
    assert_eq!(all.len(), 2);
    assert_eq!(all[0].0, a);
    assert_eq!(all[0].1.brand, "A");
    assert_eq!(all[1].0, c);
    assert_eq!(all[1].1.brand, "C");
}

#[test]
fn identifiers_stay_distinct_across_kinds_and_creates() {
    let mut store = Store::new(Kind::Coffee);
    let a = store.create(rec("A", 1, "t")).unwrap();
    let b = store.create(rec("B", 2, "t")).unwrap();
    assert_ne!(a, b);
    assert_eq!(a, Identifier { kind: Kind::Coffee, num: 0 });
    assert_eq!(b, Identifier { kind: Kind::Coffee, num: 1 });
    let all = store.list_all();
    assert_eq!(all.len(), 2);
}

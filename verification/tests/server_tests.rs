use oxide_eda::server::api::{
    acquire_lock, holder_from, release_lock, ApiError, BearerAuth, FieldSetWire, LockBody,
};
use oxide_eda::server::locks::{FieldSet, LockErrorKind, LockManager};
use oxide_eda::server::routes::{
    create_primitive, create_row, delete_row, get_primitive, get_row, update_row,
};
use oxide_eda::server::store::{PrimitiveStore, RowStore};

fn format_uuid(u: u128) -> String {
    uuid::Uuid::from_u128(u).to_string()
}

const ROW: u128 = 0x0190_0000_0000_7000_8000_0000_0000_0001;
const LIB: u128 = 0x0190_0000_0000_7000_8000_0000_0000_00aa;

#[test]
fn lock_contention_second_attempt_blocks_until_release() {
    let mut locks = LockManager::new(600_000);
    locks.set_idle_ttl(200);
    let row = ROW;
    locks.try_lock_at(row, FieldSet::Symbol, "alice", 1_000).expect("alice acquires");
    let err = locks.try_lock_at(row, FieldSet::Symbol, "bob", 1_010).unwrap_err();
    assert!(matches!(err.kind, LockErrorKind::Held { .. }));
    locks.release_at(row, FieldSet::Symbol, "alice", 1_020).unwrap();
    locks.try_lock_at(row, FieldSet::Symbol, "bob", 1_030).expect("bob acquires after release");
    locks.try_lock_at(row, FieldSet::Footprint, "alice", 1_040).expect("different field-set is independent");
}

#[test]
fn lock_contention_ttl_expiry_allows_takeover() {
    let mut locks = LockManager::new(600_000);
    locks.set_idle_ttl(50);
    locks.try_lock_at(ROW, FieldSet::Symbol, "alice", 10_000).unwrap();
    locks.try_lock_at(ROW, FieldSet::Symbol, "bob", 10_100).expect("bob takes over after TTL");
}

#[test]
fn lock_with_real_clock_blocks_other_holder() {
    let mut locks = LockManager::new(60_000);
    locks.try_lock(ROW, FieldSet::Symbol, "alice").unwrap();
    let err = locks.try_lock(ROW, FieldSet::Symbol, "bob").unwrap_err();
    assert_eq!(err.kind, LockErrorKind::Held { holder: "alice".to_string() });
    locks.release(ROW, FieldSet::Symbol, "alice").unwrap();
    locks.try_lock(ROW, FieldSet::Symbol, "bob").unwrap();
    locks.sweep_expired();
    assert!(locks.try_lock(ROW, FieldSet::Symbol, "alice").is_err());
}

#[test]
fn lock_release_and_sweep_rules() {
    let mut locks = LockManager::new(100);
    assert_eq!(locks.try_lock_at(ROW, FieldSet::Lifecycle, "", 0).unwrap_err().kind, LockErrorKind::UnknownHolder);
    assert_eq!(locks.release_at(ROW, FieldSet::Lifecycle, "alice", 0).unwrap_err().kind, LockErrorKind::UnknownHolder);
    locks.try_lock_at(ROW, FieldSet::Lifecycle, "alice", 0).unwrap();
    locks.try_lock_at(ROW, FieldSet::Lifecycle, "alice", 90).unwrap();
    assert_eq!(
        locks.release_at(ROW, FieldSet::Lifecycle, "bob", 100).unwrap_err().kind,
        LockErrorKind::Held { holder: "alice".to_string() }
    );
    locks.sweep_expired_at(191);
    assert_eq!(locks.release_at(ROW, FieldSet::Lifecycle, "alice", 150).unwrap_err().kind, LockErrorKind::UnknownHolder);
    locks.try_lock_at(ROW, FieldSet::Model3d, "carol", 200).unwrap();
    locks.sweep_expired_at(250);
    assert_eq!(
        locks.try_lock_at(ROW, FieldSet::Model3d, "dave", 260).unwrap_err().kind,
        LockErrorKind::Held { holder: "carol".to_string() }
    );
    locks.try_lock_at(ROW, FieldSet::Lifecycle, "bob", 260).unwrap();
}

#[test]
fn locks_endpoint_returns_409_when_held() {
    let mut locks = LockManager::new(60_000);
    let row_id = format_uuid(ROW);
    let body = LockBody { field_set: FieldSetWire::Symbol };
    assert_eq!(acquire_lock(&mut locks, &row_id, Some("alice"), body).unwrap(), 201);
    let e = acquire_lock(&mut locks, &row_id, Some("bob"), body).unwrap_err();
    assert_eq!(e.status, 409);
    assert_eq!(e.message, "lock held by alice");
    let e = release_lock(&mut locks, &row_id, Some("bob"), body).unwrap_err();
    assert_eq!(e.status, 409);
    assert_eq!(release_lock(&mut locks, &row_id, Some("alice"), body).unwrap(), 204);
    let e = release_lock(&mut locks, &row_id, Some("alice"), body).unwrap_err();
    assert_eq!((e.status, e.message.as_str()), (400, "not lock holder"));
    let e = acquire_lock(&mut locks, "not-a-uuid", Some("alice"), body).unwrap_err();
    assert_eq!(e.status, 400);
}

#[test]
fn row_ids_are_written_hyphenated() {
    let mut store = RowStore::new();
    let e = get_row(&store, LIB, "resistors", "01900000-0000-7000-8000-000000000001").unwrap_err();
    assert_eq!(e.message, "row 01900000-0000-7000-8000-000000000001 in table resistors");
    create_row(&mut store, LIB, "resistors", ROW, "PN", "{}").unwrap();
    assert_eq!(store.list_table_names("019000000000700080000000000000aa"), Vec::<String>::new());
    assert_eq!(store.list_table_names("01900000-0000-7000-8000-0000000000aa"), vec!["resistors".to_string()]);
    let e = get_row(&store, LIB, "resistors", "xyz").unwrap_err();
    assert!(e.message.starts_with("row_id: "));
    assert!(e.message.len() > "row_id: ".len());
}

#[test]
fn holder_header_checks() {
    let e = holder_from(None).unwrap_err();
    assert_eq!((e.status, e.message.as_str()), (400, "missing x-oxide-holder header"));
    let e = holder_from(Some("")).unwrap_err();
    assert_eq!(e.message, "x-oxide-holder is empty");
    let long = "é".repeat(129);
    let e = holder_from(Some(&long)).unwrap_err();
    assert_eq!(e.message, "x-oxide-holder exceeds 256-byte limit");
    assert_eq!(holder_from(Some(&"é".repeat(128))).unwrap(), "é".repeat(128));
    let e = holder_from(Some("ali\u{7f}ce")).unwrap_err();
    assert_eq!(e.message, "x-oxide-holder contains control characters");
    assert_eq!(holder_from(Some("alice")).unwrap(), "alice");
}

#[test]
fn bearer_auth_admission() {
    let auth = BearerAuth::new(Some("test-bearer-token".to_string()));
    assert!(auth.admits("/health", None));
    assert!(auth.admits("/version", None));
    assert!(!auth.admits("/tables", None));
    assert!(!auth.admits("/tables", Some("Bearer wrong")));
    assert!(!auth.admits("/tables", Some("test-bearer-token")));
    assert!(auth.admits("/tables", Some("Bearer test-bearer-token")));
    let open = BearerAuth::new(None);
    assert!(open.admits("/tables", None));
}

#[test]
fn api_error_statuses() {
    assert_eq!(ApiError::not_found("x").status, 404);
    assert_eq!(ApiError::bad_request("x").status, 400);
    assert_eq!(ApiError::conflict("x").status, 409);
    assert_eq!(ApiError::unauthorized("x").status, 401);
    assert_eq!(ApiError::internal("x").status, 500);
}

#[test]
fn route_post_duplicate_row_conflicts_and_preserves_original() {
    let mut store = RowStore::new();
    assert_eq!(create_row(&mut store, LIB, "resistors", ROW, "R0805_10k", "{\"v\":1}").unwrap(), 201);
    let e = create_row(&mut store, LIB, "resistors", ROW, "R0805_CLOBBER", "{\"v\":2}").unwrap_err();
    assert_eq!(e.status, 409);
    assert_eq!(e.message, format!("row {} already exists in table resistors", format_uuid(ROW)));
    let got = get_row(&store, LIB, "resistors", &format_uuid(ROW)).unwrap();
    assert_eq!(got, "{\"v\":1}");
}

#[test]
fn route_put_and_delete_rows() {
    let mut store = RowStore::new();
    let id = format_uuid(ROW);
    assert_eq!(update_row(&mut store, LIB, "resistors", &id, ROW, "X", "{}").unwrap_err().status, 404);
    create_row(&mut store, LIB, "resistors", ROW, "R0805_10k", "a").unwrap();
    assert_eq!(update_row(&mut store, LIB, "resistors", &id, ROW + 1, "X", "b").unwrap_err().status, 400);
    assert_eq!(update_row(&mut store, LIB, "resistors", &id, ROW, "R0805_10k_REV2", "b").unwrap(), 200);
    assert_eq!(get_row(&store, LIB, "resistors", &id).unwrap(), "b");
    assert_eq!(get_row(&store, LIB, "capacitors", &id).unwrap_err().status, 404);
    assert_eq!(get_row(&store, LIB, "resistors", "zzz").unwrap_err().status, 400);
    assert_eq!(delete_row(&mut store, LIB, "resistors", &id).unwrap(), 204);
    assert_eq!(delete_row(&mut store, LIB, "resistors", &id).unwrap_err().status, 404);
    assert_eq!(get_row(&store, LIB, "resistors", &id).unwrap_err().status, 404);
}

#[test]
fn tables_and_rows_are_listed_in_order() {
    let mut store = RowStore::new();
    store.insert_row("lib", "resistors", "r2", "R2", "p2");
    store.insert_row("lib", "capacitors", "c1", "C1", "q1");
    store.insert_row("lib", "resistors", "r1", "R1", "p1");
    store.insert_row("other", "inductors", "l1", "L1", "x");
    assert_eq!(store.list_table_names("lib"), vec!["capacitors".to_string(), "resistors".to_string()]);
    assert!(store.list_table_names("none").is_empty());
    let rows = store.list_rows_in_table("lib", "resistors");
    let pns: Vec<&str> = rows.iter().map(|r| r.internal_pn.as_str()).collect();
    assert_eq!(pns, vec!["R1", "R2"]);
    assert_eq!(rows[0].created_at, rows[0].updated_at);
}

#[test]
fn primitives_round_trip_and_list_by_name() {
    let mut store = PrimitiveStore::new();
    let uuid = ROW;
    assert_eq!(create_primitive(&mut store, LIB, uuid, "OPAMP-DUAL-8", "s1"), 201);
    assert_eq!(get_primitive(&store, "symbol", Some(LIB), &format_uuid(uuid)).unwrap(), "s1");
    create_primitive(&mut store, LIB, uuid, "OPAMP-DUAL-8", "s2");
    assert_eq!(get_primitive(&store, "symbol", Some(LIB), &format_uuid(uuid)).unwrap(), "s2");
    let e = get_primitive(&store, "symbol", None, &format_uuid(uuid)).unwrap_err();
    assert_eq!((e.status, e.message.as_str()), (400, "missing library_id query parameter"));
    let e = get_primitive(&store, "symbol", Some(LIB), &format_uuid(uuid + 1)).unwrap_err();
    assert_eq!(e.status, 404);
    assert_eq!(e.message, format!("symbol {}/{}", format_uuid(LIB), format_uuid(uuid + 1)));
    create_primitive(&mut store, LIB, uuid + 2, "CAP-2T", "c");
    create_primitive(&mut store, LIB + 1, uuid + 3, "AAA", "z");
    let names: Vec<String> = store.list(Some(&format_uuid(LIB))).into_iter().map(|p| p.name).collect();
    assert_eq!(names, vec!["CAP-2T".to_string(), "OPAMP-DUAL-8".to_string()]);
    assert_eq!(store.list(None).len(), 3);
}

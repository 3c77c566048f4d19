use mudb::storage::db::{Storage, Value, DB};
use mudb::storage::DBError;

#[test]
fn get_on_empty_store_finds_nothing() {
    let db = DB::new();
    assert_eq!(db.get("k").unwrap(), None);
}

#[test]
fn set_then_get_returns_the_value() {
    let db = DB::new();
    db.set("k".to_string(), Value::String("v".to_string())).unwrap();
    assert_eq!(db.get("k").unwrap(), Some("v".to_string()));
}

#[test]
fn get_on_list_key_reports_wrong_type() {
    let db = DB::new();
    db.rpush("k".to_string(), vec!["a".to_string()]).unwrap();
    assert!(matches!(db.get("k"), Err(DBError::WrongType)));
}

#[test]
fn set_on_list_key_reports_wrong_type() {
    let db = DB::new();
    db.rpush("k".to_string(), vec!["a".to_string()]).unwrap();
    let r = db.set("k".to_string(), Value::String("v".to_string()));
    assert!(matches!(r, Err(DBError::WrongType)));
}

#[test]
fn push_on_string_key_reports_wrong_type() {
    let db = DB::new();
    db.set("k".to_string(), Value::String("v".to_string())).unwrap();
    assert!(matches!(
        db.lpush("k".to_string(), vec!["a".to_string()]),
        Err(DBError::WrongType)
    ));
    assert!(matches!(
        db.rpush("k".to_string(), vec!["a".to_string()]),
        Err(DBError::WrongType)
    ));
}

#[test]
fn lpush_seeds_and_prepends() {
    let db = DB::new();
    let n = db
        .lpush(
            "k".to_string(),
            vec!["a".to_string(), "b".to_string(), "c".to_string()],
        )
        .unwrap();
    assert_eq!(n, 3);
    let elems = db.lrange("k".to_string(), 0, 2).unwrap();
    assert_eq!(elems, vec!["c".to_string(), "b".to_string(), "a".to_string()]);

    let n = db.lpush("k".to_string(), vec!["d".to_string()]).unwrap();
    assert_eq!(n, 4);
    let elems = db.lrange("k".to_string(), 0, 0).unwrap();
    assert_eq!(elems, vec!["d".to_string()]);
}

#[test]
fn rpush_seeds_and_appends() {
    let db = DB::new();
    let n = db
        .rpush(
            "k".to_string(),
            vec!["a".to_string(), "b".to_string(), "c".to_string()],
        )
        .unwrap();
    assert_eq!(n, 3);
    let elems = db.lrange("k".to_string(), 0, 2).unwrap();
    assert_eq!(elems, vec!["a".to_string(), "b".to_string(), "c".to_string()]);
}

#[test]
fn lrange_on_missing_key_is_empty_not_an_error() {
    let db = DB::new();
    assert_eq!(db.lrange("nothing".to_string(), 0, 10).unwrap(), Vec::<String>::new());
}

#[test]
fn lrange_single_position_window() {
    let db = DB::new();
    db.rpush(
        "k".to_string(),
        vec!["a".to_string(), "b".to_string(), "c".to_string()],
    )
    .unwrap();
    assert_eq!(db.lrange("k".to_string(), 1, 1).unwrap(), vec!["b".to_string()]);
}

#[test]
fn round_list_index_clamps_both_ends() {
    assert_eq!(DB::round_list_index(5, 2), 2);
    assert_eq!(DB::round_list_index(5, -1), 4);
    assert_eq!(DB::round_list_index(5, -5), 0);
    assert_eq!(DB::round_list_index(5, -7), 0);
    assert_eq!(DB::round_list_index(5, 5), 4);
    assert_eq!(DB::round_list_index(5, 99), 4);
    assert_eq!(DB::round_list_index(5, i64::MIN), 0);
}

#[test]
fn round_list_indices_windows() {
    assert_eq!(DB::round_list_indices(5, 1, 3), (1, 4));
    assert_eq!(DB::round_list_indices(5, 3, 1), (0, 0));
    assert_eq!(DB::round_list_indices(5, 2, 2), (2, 3));
    assert_eq!(DB::round_list_indices(5, 0, -1), (0, 0));
    assert_eq!(DB::round_list_indices(5, -2, -1), (3, 5));
    assert_eq!(DB::round_list_indices(5, 0, 99), (0, 5));
    // Rounding can put the stop before the start even when the raw stop
    // was not: the window is then empty.
    assert_eq!(DB::round_list_indices(5, -1, 2), (0, 0));
}

#[test]
fn storage_handles_share_one_engine() {
    let storage = Storage::new(DB::new());
    let h1 = storage.db();
    let h2 = storage.db();
    h1.set("k".to_string(), Value::String("v".to_string())).unwrap();
    assert_eq!(h2.get("k").unwrap(), Some("v".to_string()));
}

#[test]
fn db_error_messages() {
    assert_eq!(
        DBError::WrongType.message(),
        "WRONGTYPE Operation against a key holding the wrong kind of value"
    );
    assert_eq!(DBError::Other("boom".to_string()).message(), "boom");
}

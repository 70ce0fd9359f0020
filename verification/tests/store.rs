use inmemory_cluster::store::Database;

#[test]
fn insert_then_get_returns_value() {
    let mut db = Database::new();
    db.insert("k".to_string(), "v".to_string());
    assert_eq!(db.get("k"), Some("v".to_string()));
    assert_eq!(db.get("x"), None);
}

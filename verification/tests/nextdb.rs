use nextbom::nextdb::{list_alt_tables, read_nextdb_metadata};
use rusqlite::Connection;

#[test]
fn list_alt_tables_strips_prefix() {
    let conn = Connection::open_in_memory().unwrap();
    conn.execute_batch(
        "CREATE TABLE parts (ID TEXT, mfr TEXT, mpn TEXT);
         CREATE TABLE alt_2025 (ID TEXT, mfr TEXT, mpn TEXT);
         CREATE TABLE alt_proto (ID TEXT, mfr TEXT, mpn TEXT);",
    ).unwrap();

    let tables = list_alt_tables(&conn).unwrap();
    assert_eq!(tables, vec!["2025", "proto"]);
}

#[test]
fn list_alt_tables_excludes_non_alt_tables() {
    let conn = Connection::open_in_memory().unwrap();
    conn.execute_batch(
        "CREATE TABLE parts (ID TEXT, mfr TEXT, mpn TEXT);
         CREATE TABLE metadata (id INTEGER PRIMARY KEY, database_version TEXT);",
    ).unwrap();

    let tables = list_alt_tables(&conn).unwrap();
    assert!(tables.is_empty());
}

#[test]
fn list_alt_tables_returns_value_compatible_with_resolve() {
    // The stripped name can directly index the alt table in resolve logic: the alt table
    // name is "alt_" followed by the project-specifics identifier.
    let conn = Connection::open_in_memory().unwrap();
    conn.execute_batch(
        "CREATE TABLE parts (ID TEXT, mfr TEXT, mpn TEXT);
         CREATE TABLE alt_2025 (ID TEXT, mfr TEXT, mpn TEXT);",
    ).unwrap();

    let tables = list_alt_tables(&conn).unwrap();
    let specifics = &tables[0]; // "2025"
    let reconstructed = format!("alt_{}", specifics);
    assert_eq!(reconstructed, "alt_2025");
    assert_eq!(nextbom::db::alt_table_name(specifics), "alt_2025");
}

#[test]
fn the_prefix_is_removed_once() {
    let conn = Connection::open_in_memory().unwrap();
    conn.execute_batch(
        "CREATE TABLE alt_alt_x (ID TEXT, mfr TEXT, mpn TEXT);
         CREATE TABLE altx (ID TEXT, mfr TEXT, mpn TEXT);
         CREATE TABLE ALT_UP (ID TEXT, mfr TEXT, mpn TEXT);
         CREATE TABLE alt_b (ID TEXT, mfr TEXT, mpn TEXT);",
    ).unwrap();
    let ids = list_alt_tables(&conn).unwrap();
    assert_eq!(ids, vec!["alt_x", "b"]);
    for id in &ids {
        assert_eq!(nextbom::db::alt_table_name(id), format!("alt_{}", id));
    }
}

#[test]
fn identifiers_of_table_names() {
    let names = vec!["alt_2025".to_string(), "parts".to_string(), "alt_".to_string(), "alt_alt_q".to_string()];
    assert_eq!(nextbom::nextdb::alt_identifiers(&names), vec!["2025", "", "alt_q"]);
}

#[test]
fn metadata_version_is_read() {
    let conn = Connection::open_in_memory().unwrap();
    assert!(read_nextdb_metadata(&conn).unwrap().is_none());
    conn.execute_batch("CREATE TABLE metadata (id INTEGER PRIMARY KEY, database_version TEXT);").unwrap();
    assert!(read_nextdb_metadata(&conn).unwrap().is_none());
    conn.execute_batch("INSERT INTO metadata VALUES (1, 'v7');").unwrap();
    assert_eq!(read_nextdb_metadata(&conn).unwrap().unwrap().database_version, "v7");
}

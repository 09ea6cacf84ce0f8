use nextbom::bom::{group_for_excel, BomEntry, Metadata};
use nextbom::db::{
    create_database, insert_bom_entries, insert_metadata, migrate_bom_for_resolution,
    parse_stored_list, read_resolved_bom, resolution_texts, resolve_bom_entries, resolve_part_id,
    rows_without_resolution, update_resolution_metadata, ResolvedPart, missing_column_statement,
    alt_rows_query, entry_params, update_params, resolution_metadata_params, resolution_of, SqlValue,
    resolved_entries, bom_rows_query, resolution_columns_query, parts_lookup, alt_table_lookup, BomRow,
    update_resolution_statement, bom_entries_query,
};
use nextbom::export::{export_header_of, read_export_header, ExportRow};
use rusqlite::Connection;

fn make_nextdb(conn: &Connection) {
    conn.execute_batch(
        "CREATE TABLE parts (ID TEXT, mfr TEXT, mpn TEXT);
         INSERT INTO parts VALUES ('CAP00100', 'TDK', 'C0402X5R');
         INSERT INTO parts VALUES ('CAP00100', 'Murata', 'GRM0332');
         INSERT INTO parts VALUES ('RES00100', 'Yageo', 'RC0402');",
    )
    .unwrap();
}

fn make_nextbom(conn: &Connection) {
    conn.execute_batch(
        "CREATE TABLE bom (designator TEXT PRIMARY KEY NOT NULL, part_id TEXT NOT NULL);
         INSERT INTO bom VALUES ('C1', 'CAP00100');
         INSERT INTO bom VALUES ('R1', 'RES00100');",
    )
    .unwrap();
}

#[test]
fn migrate_adds_columns() {
    let conn = Connection::open_in_memory().unwrap();
    make_nextbom(&conn);
    migrate_bom_for_resolution(&conn).unwrap();

    for col in ["mfr", "mpn", "alt_mfr", "alt_mpn"] {
        let exists: i64 = conn
            .query_row(
                "SELECT COUNT(*) FROM pragma_table_info('bom') WHERE name=?1",
                [col],
                |r| r.get(0),
            )
            .unwrap();
        assert_eq!(exists, 1, "column {col} should exist");
    }
}

#[test]
fn migrate_is_idempotent() {
    let conn = Connection::open_in_memory().unwrap();
    make_nextbom(&conn);
    migrate_bom_for_resolution(&conn).unwrap();
    migrate_bom_for_resolution(&conn).unwrap();
}

#[test]
fn resolve_part_id_returns_main_rows() {
    let db = Connection::open_in_memory().unwrap();
    make_nextdb(&db);

    let r = resolve_part_id(&db, "CAP00100", None).unwrap();
    assert_eq!(r.mfr, vec!["TDK", "Murata"]);
    assert_eq!(r.mpn, vec!["C0402X5R", "GRM0332"]);
    assert!(r.alt_mfr.is_empty());
    assert!(r.alt_mpn.is_empty());
}

#[test]
fn resolve_part_id_no_match_returns_empty_arrays() {
    let db = Connection::open_in_memory().unwrap();
    make_nextdb(&db);

    let r = resolve_part_id(&db, "UNKNOWN", None).unwrap();
    assert!(r.mfr.is_empty());
    assert!(r.mpn.is_empty());
    assert!(r.alt_mfr.is_empty());
    assert!(r.alt_mpn.is_empty());
}

#[test]
fn resolve_part_id_with_alt_separates_into_alt_columns() {
    let db = Connection::open_in_memory().unwrap();
    make_nextdb(&db);
    db.execute_batch(
        "CREATE TABLE alt_2025 (ID TEXT, mfr TEXT, mpn TEXT);
         INSERT INTO alt_2025 VALUES ('RES00100', 'Vishay', 'CRCW0402');",
    )
    .unwrap();

    let r = resolve_part_id(&db, "RES00100", Some("2025")).unwrap();
    assert_eq!(r.mfr, vec!["Yageo"]);
    assert_eq!(r.mpn, vec!["RC0402"]);
    assert_eq!(r.alt_mfr, vec!["Vishay"]);
    assert_eq!(r.alt_mpn, vec!["CRCW0402"]);
}

#[test]
fn resolve_part_id_alt_table_missing_yields_empty_alt_columns() {
    let db = Connection::open_in_memory().unwrap();
    make_nextdb(&db);

    let r = resolve_part_id(&db, "RES00100", Some("nonexistent")).unwrap();
    assert!(r.alt_mfr.is_empty());
    assert!(r.alt_mpn.is_empty());
}

#[test]
fn resolve_bom_entries_updates_all_rows() {
    let nextbom = Connection::open_in_memory().unwrap();
    let nextdb = Connection::open_in_memory().unwrap();
    make_nextbom(&nextbom);
    make_nextdb(&nextdb);

    let count = resolve_bom_entries(&nextbom, &nextdb, None).unwrap();
    assert_eq!(count, 2);

    let mfr: String = nextbom
        .query_row("SELECT mfr FROM bom WHERE designator = 'C1'", [], |r| r.get(0))
        .unwrap();
    let mpn: String = nextbom
        .query_row("SELECT mpn FROM bom WHERE designator = 'C1'", [], |r| r.get(0))
        .unwrap();
    let alt_mfr: Option<String> = nextbom
        .query_row("SELECT alt_mfr FROM bom WHERE designator = 'C1'", [], |r| r.get(0))
        .unwrap();
    assert_eq!(mfr, r#"["TDK","Murata"]"#);
    assert_eq!(mpn, r#"["C0402X5R","GRM0332"]"#);
    assert_eq!(alt_mfr.as_deref(), Some("[]"));
}

#[test]
fn resolve_bom_entries_populates_alt_columns_when_project_specifics_set() {
    let nextbom = Connection::open_in_memory().unwrap();
    let nextdb = Connection::open_in_memory().unwrap();
    make_nextbom(&nextbom);
    make_nextdb(&nextdb);
    nextdb.execute_batch(
        "CREATE TABLE alt_2025 (ID TEXT, mfr TEXT, mpn TEXT);
         INSERT INTO alt_2025 VALUES ('RES00100', 'Vishay', 'CRCW0402');",
    ).unwrap();

    let count = resolve_bom_entries(&nextbom, &nextdb, Some("2025")).unwrap();
    assert_eq!(count, 2);

    // R1 has an alt entry — alt columns are populated, part_id is left untouched.
    let part_id: String = nextbom
        .query_row("SELECT part_id FROM bom WHERE designator = 'R1'", [], |r| r.get(0))
        .unwrap();
    let alt_mfr: String = nextbom
        .query_row("SELECT alt_mfr FROM bom WHERE designator = 'R1'", [], |r| r.get(0))
        .unwrap();
    let alt_mpn: String = nextbom
        .query_row("SELECT alt_mpn FROM bom WHERE designator = 'R1'", [], |r| r.get(0))
        .unwrap();
    assert_eq!(part_id, "RES00100");
    assert_eq!(alt_mfr, r#"["Vishay"]"#);
    assert_eq!(alt_mpn, r#"["CRCW0402"]"#);

    // C1 has no alt entry — alt columns are empty arrays, part_id unchanged.
    let part_id: String = nextbom
        .query_row("SELECT part_id FROM bom WHERE designator = 'C1'", [], |r| r.get(0))
        .unwrap();
    let alt_mfr: String = nextbom
        .query_row("SELECT alt_mfr FROM bom WHERE designator = 'C1'", [], |r| r.get(0))
        .unwrap();
    assert_eq!(part_id, "CAP00100");
    assert_eq!(alt_mfr, r#"[]"#);
}

#[test]
fn resolve_bom_entries_is_idempotent_under_repeated_calls() {
    // Re-running resolution must not mutate part_id, otherwise the second pass would look
    // up a stale value and lose the resolution.
    let nextbom = Connection::open_in_memory().unwrap();
    let nextdb = Connection::open_in_memory().unwrap();
    make_nextbom(&nextbom);
    make_nextdb(&nextdb);
    nextdb.execute_batch(
        "CREATE TABLE alt_2025 (ID TEXT, mfr TEXT, mpn TEXT);
         INSERT INTO alt_2025 VALUES ('RES00100', 'Vishay', 'CRCW0402');",
    ).unwrap();

    resolve_bom_entries(&nextbom, &nextdb, Some("2025")).unwrap();
    resolve_bom_entries(&nextbom, &nextdb, Some("2025")).unwrap();

    let part_id: String = nextbom
        .query_row("SELECT part_id FROM bom WHERE designator = 'R1'", [], |r| r.get(0))
        .unwrap();
    let mfr: String = nextbom
        .query_row("SELECT mfr FROM bom WHERE designator = 'R1'", [], |r| r.get(0))
        .unwrap();
    let alt_mfr: String = nextbom
        .query_row("SELECT alt_mfr FROM bom WHERE designator = 'R1'", [], |r| r.get(0))
        .unwrap();
    assert_eq!(part_id, "RES00100");
    assert_eq!(mfr, r#"["Yageo"]"#);
    assert_eq!(alt_mfr, r#"["Vishay"]"#);
}

#[test]
fn resolved_bom_reads_back_what_resolution_wrote() {
    let nextbom = Connection::open_in_memory().unwrap();
    let nextdb = Connection::open_in_memory().unwrap();
    make_nextbom(&nextbom);
    make_nextdb(&nextdb);
    nextdb.execute_batch(
        "CREATE TABLE alt_2025 (ID TEXT, mfr TEXT, mpn TEXT);
         INSERT INTO alt_2025 VALUES ('RES00100', 'Vi\"shay', 'CRCW\n0402');",
    ).unwrap();
    resolve_bom_entries(&nextbom, &nextdb, Some("2025")).unwrap();
    let entries = read_resolved_bom(&nextbom).unwrap();
    assert_eq!(entries.len(), 2);
    assert_eq!(entries[0].designator, "C1");
    assert_eq!(entries[0].mfr, vec!["TDK", "Murata"]);
    assert_eq!(entries[1].alt_mfr, vec!["Vi\"shay"]);
    assert_eq!(entries[1].alt_mpn, vec!["CRCW\n0402"]);
}

#[test]
fn unresolved_bom_reads_with_empty_lists() {
    let nextbom = Connection::open_in_memory().unwrap();
    make_nextbom(&nextbom);
    let entries = read_resolved_bom(&nextbom).unwrap();
    assert_eq!(entries.len(), 2);
    assert!(entries[1].mfr.is_empty() && entries[1].alt_mpn.is_empty());
    assert_eq!(entries[1].part_id, "RES00100");
}

#[test]
fn null_or_bad_json_cells_read_as_empty() {
    let nextbom = Connection::open_in_memory().unwrap();
    make_nextbom(&nextbom);
    migrate_bom_for_resolution(&nextbom).unwrap();
    nextbom.execute_batch("UPDATE bom SET mfr = 'not json' WHERE designator = 'C1'").unwrap();
    let entries = read_resolved_bom(&nextbom).unwrap();
    assert!(entries[0].mfr.is_empty());
    assert!(entries[0].mpn.is_empty());
}

#[test]
fn working_file_round_trip() {
    let conn = Connection::open_in_memory().unwrap();
    create_database(&conn).unwrap();
    create_database(&conn).unwrap();
    let entries = vec![
        BomEntry { designator: "R1".into(), part_id: "RES00100".into() },
        BomEntry { designator: "C1".into(), part_id: "CAP00100".into() },
    ];
    insert_bom_entries(&conn, &entries).unwrap();
    insert_metadata(&conn, &Metadata {
        pcb_name: "board".into(),
        design_variant: "full".into(),
        bom_version: "2".into(),
        source_csv_path: "/tmp/x.csv".into(),
        csv_imported_at: 1713707400000,
        engineer: "Jane".into(),
    }).unwrap();
    let nextdb = Connection::open_in_memory().unwrap();
    make_nextdb(&nextdb);
    resolve_bom_entries(&conn, &nextdb, None).unwrap();
    update_resolution_metadata(&conn, "/db.nextdb", Some("2025"), None, 5).unwrap();
    let header = read_export_header(&conn);
    assert_eq!(header.default_filename, "board_v2.xlsx");
    assert_eq!(header.creation_date, "2024-04-21");
    assert_eq!(header.engineer, "Jane");
    assert_eq!(header.project_specifics.as_deref(), Some("2025"));
    let rows = group_for_excel(&read_resolved_bom(&conn).unwrap(), header.project_specifics.as_deref());
    assert_eq!(rows.len(), 2);
    assert_eq!(rows[0].part_id, "CAP00100");
    assert_eq!(rows[0].mfr, "TDK\nMurata");
}

#[test]
fn duplicate_designator_insert_fails() {
    let conn = Connection::open_in_memory().unwrap();
    create_database(&conn).unwrap();
    let entries = vec![
        BomEntry { designator: "R1".into(), part_id: "A".into() },
        BomEntry { designator: "R1".into(), part_id: "B".into() },
    ];
    assert!(insert_bom_entries(&conn, &entries).is_err());
}

#[test]
fn export_header_defaults_without_metadata() {
    let conn = Connection::open_in_memory().unwrap();
    let header = read_export_header(&conn);
    assert_eq!(header.default_filename, "bom.xlsx");
    assert_eq!(header.creation_date, "1970-01-01");
    assert_eq!(header.pcb_name, "");
}

#[test]
fn stored_lists_read_back_as_written() {
    let part = ResolvedPart {
        mfr: vec!["TDK".to_string(), "Mu\"rata".to_string()],
        mpn: vec!["C0402\\X".to_string(), "GRM\n03".to_string()],
        alt_mfr: vec![],
        alt_mpn: vec!["ünï".to_string()],
    };
    let (a, b, c, d) = resolution_texts(&part).unwrap();
    assert_eq!(a, r#"["TDK","Mu\"rata"]"#);
    assert_eq!(parse_stored_list(&Some(a)), part.mfr);
    assert_eq!(parse_stored_list(&Some(b)), part.mpn);
    assert_eq!(parse_stored_list(&Some(c)), part.alt_mfr);
    assert_eq!(parse_stored_list(&Some(d)), part.alt_mpn);
    assert!(parse_stored_list(&Some("not json".to_string())).is_empty());
    assert!(parse_stored_list(&None).is_empty());
}

#[test]
fn unresolved_rows_have_no_stored_lists() {
    let rows = rows_without_resolution(&vec![("C1".to_string(), "CAP".to_string())]);
    assert_eq!(rows.len(), 1);
    assert_eq!(rows[0].designator, "C1");
    assert_eq!(rows[0].part_id, "CAP");
    assert!(rows[0].mfr.is_none() && rows[0].mpn.is_none() && rows[0].alt_mfr.is_none() && rows[0].alt_mpn.is_none());
}

#[test]
fn working_file_rows_come_back_by_designator() {
    let conn = Connection::open_in_memory().unwrap();
    conn.execute_batch(
        r#"CREATE TABLE bom (designator TEXT PRIMARY KEY, part_id TEXT, mfr TEXT, mpn TEXT, alt_mfr TEXT, alt_mpn TEXT);
           INSERT INTO bom VALUES ('R1','RES00100','["Yageo"]','["RC0402"]','[]',NULL);
           INSERT INTO bom VALUES ('C1','CAP00100','["TDK"]','["C0402"]','bad','[]');"#,
    ).unwrap();
    let v = read_resolved_bom(&conn).unwrap();
    assert_eq!(v.len(), 2);
    assert_eq!(v[0].designator, "C1");
    assert_eq!(v[0].mfr, vec!["TDK"]);
    assert!(v[0].alt_mfr.is_empty());
    assert_eq!(v[1].designator, "R1");
    assert_eq!(v[1].mpn, vec!["RC0402"]);
    assert!(v[1].alt_mpn.is_empty());

    let fresh = Connection::open_in_memory().unwrap();
    fresh.execute_batch(
        "CREATE TABLE bom (designator TEXT PRIMARY KEY, part_id TEXT);
         INSERT INTO bom VALUES ('U2','IC'); INSERT INTO bom VALUES ('C9','CAP');",
    ).unwrap();
    let v = read_resolved_bom(&fresh).unwrap();
    assert_eq!(v.iter().map(|e| e.designator.as_str()).collect::<Vec<_>>(), vec!["C9", "U2"]);
    assert!(v.iter().all(|e| e.mfr.is_empty() && e.alt_mpn.is_empty()));
}

#[test]
fn statements_and_parameters() {
    assert_eq!(missing_column_statement("mfr", 0), Some("ALTER TABLE bom ADD COLUMN mfr TEXT".to_string()));
    assert_eq!(missing_column_statement("mfr", 1), None);
    assert_eq!(alt_rows_query("2025"), "SELECT mfr, mpn FROM alt_2025 WHERE ID = ?1");
    let p = entry_params(&BomEntry { designator: "C1".to_string(), part_id: "CAP".to_string() });
    assert!(matches!(&p[0], SqlValue::Text(d) if d == "C1"));
    assert!(matches!(&p[1], SqlValue::Text(x) if x == "CAP"));
    let u = update_params(("a".into(), "b".into(), "c".into(), "d".into()), &"R1".to_string());
    assert!(matches!(&u[4], SqlValue::Text(d) if d == "R1"));
    assert!(matches!(&u[0], SqlValue::Text(t) if t == "a"));
    let m = resolution_metadata_params("/db", None, Some("v2"), 5);
    assert!(matches!(&m[1], SqlValue::Null));
    assert!(matches!(&m[2], SqlValue::Text(t) if t == "v2"));
    assert!(matches!(&m[3], SqlValue::Integer(5)));
}

#[test]
fn alternatives_only_when_the_table_exists() {
    let main = vec![("TDK".to_string(), "C0402".to_string())];
    let alt = vec![("Vishay".to_string(), "CRCW".to_string())];
    let with = resolution_of(main.clone(), 1, alt.clone());
    assert_eq!(with.alt_mfr, vec!["Vishay"]);
    let without = resolution_of(main, 0, alt);
    assert!(without.alt_mfr.is_empty() && without.alt_mpn.is_empty());
    assert_eq!(without.mfr, vec!["TDK"]);
}

#[test]
fn lookup_failures_say_where() {
    let nextdb = Connection::open_in_memory().unwrap();
    let err = resolve_part_id(&nextdb, "CAP00100", None).err().unwrap();
    assert!(err.starts_with("Failed to query parts table: "));
    let nextbom = Connection::open_in_memory().unwrap();
    let err = resolve_bom_entries(&nextbom, &nextdb, None).unwrap_err();
    assert!(err.starts_with("Failed to migrate bom schema: "));
}

fn bom_row(d: &str, p: &str, mfr: Option<&str>, alt_mpn: Option<&str>) -> BomRow {
    BomRow {
        designator: d.to_string(),
        part_id: p.to_string(),
        mfr: mfr.map(|s| s.to_string()),
        mpn: None,
        alt_mfr: None,
        alt_mpn: alt_mpn.map(|s| s.to_string()),
    }
}

#[test]
fn resolved_entries_sorts_rows_and_reads_cells() {
    let rows = vec![
        bom_row("R2", "RES", Some(r#"["Yageo","KOA"]"#), None),
        bom_row("C1", "CAP", None, Some(r#"["X\"1"]"#)),
        bom_row("R10", "RES", Some("{oops"), Some("[]")),
    ];
    let v = resolved_entries(rows);
    assert_eq!(v.iter().map(|e| e.designator.as_str()).collect::<Vec<_>>(), vec!["C1", "R10", "R2"]);
    assert_eq!(v[0].part_id, "CAP");
    assert!(v[0].mfr.is_empty());
    assert_eq!(v[0].alt_mpn, vec!["X\"1"]);
    assert!(v[1].mfr.is_empty() && v[1].alt_mpn.is_empty());
    assert_eq!(v[2].mfr, vec!["Yageo", "KOA"]);
    assert!(v[2].mpn.is_empty());
    assert!(resolved_entries(Vec::new()).is_empty());
}

#[test]
fn queries_sent_to_the_databases() {
    assert_eq!(resolution_columns_query(), "SELECT COUNT(*) FROM pragma_table_info('bom') WHERE name='mfr'");
    assert_eq!(
        bom_rows_query(true),
        "SELECT designator, part_id, mfr, mpn, alt_mfr, alt_mpn FROM bom ORDER BY designator"
    );
    assert_eq!(bom_rows_query(false), "SELECT designator, part_id FROM bom ORDER BY designator");
    assert_eq!(parts_lookup("CAP00100"), ("SELECT mfr, mpn FROM parts WHERE ID = ?1", "CAP00100"));
    let (sql, name) = alt_table_lookup("2025");
    assert_eq!(sql, "SELECT COUNT(*) FROM sqlite_master WHERE type='table' AND name=?1");
    assert_eq!(name, "alt_2025");
    assert_eq!(bom_entries_query(), "SELECT designator, part_id FROM bom");
    assert_eq!(
        update_resolution_statement(),
        "UPDATE bom SET mfr = ?1, mpn = ?2, alt_mfr = ?3, alt_mpn = ?4 WHERE designator = ?5"
    );
}

#[test]
fn stored_texts_are_compact_json() {
    let part = ResolvedPart {
        mfr: vec!["Vi\"shay".into(), "a\\b".into()],
        mpn: vec!["CRCW\n0402".into(), "\u{1}\t".into()],
        alt_mfr: vec![],
        alt_mpn: vec!["Ω".into()],
    };
    let (a, b, c, d) = resolution_texts(&part).unwrap();
    assert_eq!(a, r#"["Vi\"shay","a\\b"]"#);
    assert_eq!(b, r#"["CRCW\n0402","\u0001\t"]"#);
    assert_eq!(c, "[]");
    assert_eq!(d, "[\"Ω\"]");
}

#[test]
fn export_header_depends_on_the_row_alone() {
    let row = || ExportRow {
        pcb_name: "board".into(),
        bom_version: "3".into(),
        design_variant: "full".into(),
        engineer: None,
        csv_imported_at: 0,
        project_specifics: Some("2025".into()),
    };
    let h1 = export_header_of(Ok(row()));
    let h2 = export_header_of(Ok(row()));
    assert_eq!(h1.default_filename, "board_v3.xlsx");
    assert_eq!(h1.default_filename, h2.default_filename);
    assert_eq!(h1.creation_date, "1970-01-01");
    assert_eq!(h1.creation_date, h2.creation_date);
    assert_eq!(h1.engineer, "");
    let missing = export_header_of(Err("no row".into()));
    assert_eq!(missing.default_filename, "bom.xlsx");
    assert_eq!(missing.creation_date, "1970-01-01");
    let conn = Connection::open_in_memory().unwrap();
    create_database(&conn).unwrap();
    insert_metadata(&conn, &Metadata {
        pcb_name: "board".into(),
        design_variant: "full".into(),
        bom_version: "3".into(),
        source_csv_path: "/x.csv".into(),
        csv_imported_at: 1713707400000,
        engineer: "Jane".into(),
    }).unwrap();
    let r1 = read_export_header(&conn);
    let r2 = read_export_header(&conn);
    assert_eq!(r1.default_filename, r2.default_filename);
    assert_eq!(r1.creation_date, r2.creation_date);
    assert_eq!(r1.engineer, "Jane");
}

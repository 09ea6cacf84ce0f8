//! The SQLite side: the `.nextbom` working file (its `bom` and `metadata` tables) and the
//! `.nextdb` parts database (its `parts` table, `alt_*` tables and optional `metadata` table).
//!
//! What a query returns depends on what the database file holds, so nothing is claimed of it;
//! the statements sent are fixed here, and what is done with the rows that come back is stated
//! exactly by the functions that take them.

use vstd::prelude::*;
use crate::bom::{BomEntry, Metadata, ResolvedBomEntry};
use crate::text::{concat, lemma_insert_multiset, lemma_str_le_transitive, lemma_str_lt_total, sorted_strs, str_le, str_less, str_lt, strs};

verus! {

/// An open SQLite database (`rusqlite::Connection`), carried through as it is.
#[verifier::external_type_specification]
#[verifier::external_body]
pub struct ExConnection(rusqlite::Connection);

/// A value bound to a statement parameter.
pub enum SqlValue {
    Text(String),
    Integer(i64),
    Null,
}

/// Where a query failed: preparing the statement, starting it, or reading a row.
pub enum QueryError {
    Prepare(String),
    Query(String),
    Row(String),
}

/// Runs one statement with `rusqlite::Connection::execute` and the given parameters;
/// the error is the text of `rusqlite::Error`. What it does depends on the database.
#[verifier::external_body]
fn execute_sql(conn: &rusqlite::Connection, sql: &str, params: &Vec<SqlValue>) -> Result<usize, String> {
    let values = params.iter().map(|p| match p {
        SqlValue::Text(s) => rusqlite::types::Value::Text(s.clone()),
        SqlValue::Integer(i) => rusqlite::types::Value::Integer(*i),
        SqlValue::Null => rusqlite::types::Value::Null,
    });
    conn.execute(sql, rusqlite::params_from_iter(values)).map_err(|e| e.to_string())
}

/// Runs a statement without parameters whose failure is expected and harmless (a column
/// added to files that predate it).
pub(crate) fn execute_sql_ignoring(conn: &rusqlite::Connection, sql: &str) {
    let no_params: Vec<SqlValue> = Vec::new();
    let _ = execute_sql(conn, sql, &no_params);
}

/// Prepares a statement with `rusqlite::Connection::prepare` and drops it: whether the
/// statement is valid against the schema. The error is the text of `rusqlite::Error`.
#[verifier::external_body]
fn prepare_sql(conn: &rusqlite::Connection, sql: &str) -> Result<(), String> {
    conn.prepare(sql).map(|_| ()).map_err(|e| e.to_string())
}

/// The single integer of a one-row query (`rusqlite::Connection::query_row`, column 0);
/// the error is the text of `rusqlite::Error`.
#[verifier::external_body]
pub(crate) fn query_count(conn: &rusqlite::Connection, sql: &str, param: Option<&str>) -> Result<i64, String> {
    let r = match param {
        Some(p) => conn.query_row(sql, [p], |row| row.get::<_, i64>(0)),
        None => conn.query_row(sql, [], |row| row.get::<_, i64>(0)),
    };
    r.map_err(|e| e.to_string())
}

/// The first two text columns of every row of a query (`prepare`, `query_map`, each row's
/// columns 0 and 1 as `String`), with at most one text parameter; the error says which
/// stage failed and carries the text of `rusqlite::Error`.
#[verifier::external_body]
fn query_text_pairs(conn: &rusqlite::Connection, sql: &str, param: Option<&str>) -> Result<Vec<(String, String)>, QueryError> {
    let mut stmt = conn.prepare(sql).map_err(|e| QueryError::Prepare(e.to_string()))?;
    let f = |row: &rusqlite::Row<'_>| Ok((row.get::<_, String>(0)?, row.get::<_, String>(1)?));
    let rows = match param {
        Some(p) => stmt.query_map([p], f),
        None => stmt.query_map([], f),
    }.map_err(|e| QueryError::Query(e.to_string()))?;
    rows.map(|r| r.map_err(|e| QueryError::Row(e.to_string()))).collect()
}

/// The first text column of every row of a query without parameters; the error says which
/// stage failed and carries the text of `rusqlite::Error`.
#[verifier::external_body]
pub(crate) fn query_texts(conn: &rusqlite::Connection, sql: &str) -> Result<Vec<String>, QueryError> {
    let mut stmt = conn.prepare(sql).map_err(|e| QueryError::Prepare(e.to_string()))?;
    let rows = stmt.query_map([], |row| row.get::<_, String>(0))
        .map_err(|e| QueryError::Query(e.to_string()))?;
    rows.map(|r| r.map_err(|e| QueryError::Row(e.to_string()))).collect()
}

/// The text in column 0 of the one row of a query without parameters: `None` when
/// `rusqlite` reports `QueryReturnedNoRows`; the error is the text of any other
/// `rusqlite::Error`.
#[verifier::external_body]
pub(crate) fn query_optional_text(conn: &rusqlite::Connection, sql: &str) -> Result<Option<String>, String> {
    match conn.query_row(sql, [], |row| row.get::<_, String>(0)) {
        Ok(s) => Ok(Some(s)),
        Err(rusqlite::Error::QueryReturnedNoRows) => Ok(None),
        Err(e) => Err(e.to_string()),
    }
}

/// A row of the `bom` table after resolution: designator, part ID and the four stored JSON
/// texts, each possibly NULL.
pub struct BomRow {
    pub designator: String,
    pub part_id: String,
    pub mfr: Option<String>,
    pub mpn: Option<String>,
    pub alt_mfr: Option<String>,
    pub alt_mpn: Option<String>,
}

/// Every row of a query of six columns: two text columns, then four nullable text columns
/// (`prepare`, `query_map`, `collect`); the error is the text of `rusqlite::Error`.
#[verifier::external_body]
fn query_bom_rows(conn: &rusqlite::Connection, sql: &str) -> Result<Vec<BomRow>, String> {
    let mut stmt = conn.prepare(sql).map_err(|e| e.to_string())?;
    let rows = stmt.query_map([], |row| Ok(BomRow {
        designator: row.get(0)?, part_id: row.get(1)?, mfr: row.get(2)?,
        mpn: row.get(3)?, alt_mfr: row.get(4)?, alt_mpn: row.get(5)?,
    })).map_err(|e| e.to_string())?;
    rows.collect::<Result<Vec<_>, _>>().map_err(|e| e.to_string())
}

/// A lowercase hexadecimal digit, for `n` below 16.
pub open spec fn hex_digit(n: int) -> char {
    if n < 10 {
        (48 + n) as char
    } else {
        (87 + n) as char
    }
}

/// How one character is written inside a JSON string: `"` and `\` behind a backslash,
/// backspace, tab, line feed, form feed and carriage return as `\b`, `\t`, `\n`, `\f`,
/// `\r`, the other characters below U+0020 as `\u00` and two lowercase hexadecimal digits,
/// every other character as it is.
pub open spec fn json_char_text(c: char) -> Seq<char> {
    if c == '"' {
        seq!['\\', '"']
    } else if c == '\\' {
        seq!['\\', '\\']
    } else if c == '\u{8}' {
        seq!['\\', 'b']
    } else if c == '\t' {
        seq!['\\', 't']
    } else if c == '\n' {
        seq!['\\', 'n']
    } else if c == '\u{c}' {
        seq!['\\', 'f']
    } else if c == '\r' {
        seq!['\\', 'r']
    } else if (c as int) < 32 {
        seq!['\\', 'u', '0', '0', hex_digit((c as int) / 16), hex_digit((c as int) % 16)]
    } else {
        seq![c]
    }
}

/// The characters of `s` as written inside a JSON string.
pub open spec fn json_escaped(s: Seq<char>) -> Seq<char>
    decreases s.len(),
{
    if s.len() == 0 {
        Seq::empty()
    } else {
        json_escaped(s.drop_last()) + json_char_text(s.last())
    }
}

/// `s` as a JSON string: escaped, between double quotes.
pub open spec fn json_string(s: Seq<char>) -> Seq<char> {
    seq!['"'] + json_escaped(s) + seq!['"']
}

/// The JSON strings of `items`, separated by commas.
pub open spec fn json_items(items: Seq<Seq<char>>) -> Seq<char>
    decreases items.len(),
{
    if items.len() == 0 {
        Seq::empty()
    } else if items.len() == 1 {
        json_string(items[0])
    } else {
        json_items(items.drop_last()) + seq![','] + json_string(items.last())
    }
}

/// The JSON text that `serde_json::to_string` gives for an array of strings: the strings as
/// JSON strings, separated by commas, between square brackets, with no white space.
pub open spec fn json_array_text(items: Seq<Seq<char>>) -> Seq<char> {
    seq!['['] + json_items(items) + seq![']']
}

/// The strings that `serde_json::from_str::<Vec<String>>` reads from `text`, if it reads an
/// array of strings.
pub uninterp spec fn json_array_parse(text: Seq<char>) -> Option<Seq<Seq<char>>>;

/// `serde_json::to_string` of an array of strings: its compact JSON text, which
/// `serde_json::from_str::<Vec<String>>` reads back as the same strings. It succeeds:
/// `to_string` fails only where a `Serialize` impl fails or a map has non-string keys, and
/// it writes into a `Vec<u8>`, whose writes do not fail.
#[verifier::external_body]
fn to_json_array(items: &Vec<String>) -> (r: Result<String, String>)
    ensures
        r is Ok,
        r matches Ok(s) ==> s@ == json_array_text(strs(items@)),
        r matches Ok(s) ==> json_array_parse(s@) == Some(strs(items@)),
{
    serde_json::to_string(items).map_err(|e| e.to_string())
}

/// `serde_json::from_str::<Vec<String>>`: the array of strings in `text`, if `text` holds
/// one.
#[verifier::external_body]
fn from_json_array(text: &str) -> (r: Option<Vec<String>>)
    ensures
        match json_array_parse(text@) {
            Some(v) => r matches Some(x) && strs(x@) == v,
            None => r is None,
        },
{
    serde_json::from_str::<Vec<String>>(text).ok()
}

/// Creates the `bom` and `metadata` tables of a `.nextbom` working file if they do not exist.
///
/// Uses `CREATE TABLE IF NOT EXISTS`, so calling this on an existing working file is safe
/// and idempotent.
pub fn create_database(conn: &rusqlite::Connection) -> (r: Result<(), String>) {
    let no_params: Vec<SqlValue> = Vec::new();
    execute_sql(
        conn,
        "CREATE TABLE IF NOT EXISTS bom (
            designator TEXT PRIMARY KEY NOT NULL,
            part_id    TEXT NOT NULL
        )",
        &no_params,
    )?;
    // Single-row constraint: only one metadata record is allowed per working file.
    execute_sql(
        conn,
        "CREATE TABLE IF NOT EXISTS metadata (
            id               INTEGER PRIMARY KEY CHECK (id = 1),
            pcb_name         TEXT NOT NULL,
            design_variant   TEXT NOT NULL,
            bom_version      TEXT NOT NULL,
            source_csv_path  TEXT NOT NULL,
            csv_imported_at  INTEGER NOT NULL,
            project_specifics TEXT,
            database_path    TEXT,
            database_version TEXT,
            resolved_at      INTEGER,
            engineer         TEXT
        )",
        &no_params,
    )?;
    Ok(())
}

/// The statement parameters that store `metadata`, in column order.
pub open spec fn metadata_params(m: Metadata) -> Seq<SqlValue> {
    seq![
        SqlValue::Text(m.pcb_name),
        SqlValue::Text(m.design_variant),
        SqlValue::Text(m.bom_version),
        SqlValue::Text(m.source_csv_path),
        SqlValue::Integer(m.csv_imported_at),
        SqlValue::Text(m.engineer),
    ]
}

/// The statement parameters that store `metadata`, in column order.
pub fn metadata_values(metadata: &Metadata) -> (p: Vec<SqlValue>)
    ensures
        p@ == metadata_params(*metadata),
{
    let mut p: Vec<SqlValue> = Vec::new();
    p.push(SqlValue::Text(metadata.pcb_name.clone()));
    p.push(SqlValue::Text(metadata.design_variant.clone()));
    p.push(SqlValue::Text(metadata.bom_version.clone()));
    p.push(SqlValue::Text(metadata.source_csv_path.clone()));
    p.push(SqlValue::Integer(metadata.csv_imported_at));
    p.push(SqlValue::Text(metadata.engineer.clone()));
    assert(p@ =~= metadata_params(*metadata));
    p
}

/// Writes `metadata` as the single row of the `metadata` table, replacing any existing row.
pub fn insert_metadata(conn: &rusqlite::Connection, metadata: &Metadata) -> (r: Result<(), String>) {
    let params = metadata_values(metadata);
    execute_sql(
        conn,
        "INSERT OR REPLACE INTO metadata (id, pcb_name, design_variant, bom_version, source_csv_path, csv_imported_at, engineer)
         VALUES (1, ?1, ?2, ?3, ?4, ?5, ?6)",
        &params,
    )?;
    Ok(())
}

/// A text parameter, or NULL.
pub fn optional_text(s: Option<&str>) -> (v: SqlValue)
    ensures
        match s {
            Some(t) => v matches SqlValue::Text(x) && x@ == t@,
            None => v is Null,
        },
{
    match s {
        Some(t) => SqlValue::Text(String::from_str(t)),
        None => SqlValue::Null,
    }
}

/// `v` is the text parameter `t`.
pub open spec fn is_text(v: SqlValue, t: Seq<char>) -> bool {
    v matches SqlValue::Text(x) && x@ == t
}

/// `v` is the text parameter of `t` when there is one, NULL otherwise.
pub open spec fn is_optional_text(v: SqlValue, t: Option<&str>) -> bool {
    match t {
        Some(x) => is_text(v, x@),
        None => v is Null,
    }
}

/// The parameters that record a resolution in the metadata row: the parts database's path,
/// the project-specifics identifier, the database version, and the time.
pub fn resolution_metadata_params(
    database_path: &str,
    project_specifics: Option<&str>,
    database_version: Option<&str>,
    resolved_at: i64,
) -> (p: Vec<SqlValue>)
    ensures
        p@.len() == 4,
        is_text(p@[0], database_path@),
        is_optional_text(p@[1], project_specifics),
        is_optional_text(p@[2], database_version),
        p@[3] == SqlValue::Integer(resolved_at),
{
    let mut params: Vec<SqlValue> = Vec::new();
    params.push(SqlValue::Text(String::from_str(database_path)));
    params.push(optional_text(project_specifics));
    params.push(optional_text(database_version));
    params.push(SqlValue::Integer(resolved_at));
    params
}

/// Records in the metadata row which alternative set was used, which parts database was
/// queried, what version it reports, and when the resolution ran. Adds the `resolved_at`
/// column to working files that predate it.
pub fn update_resolution_metadata(
    conn: &rusqlite::Connection,
    database_path: &str,
    project_specifics: Option<&str>,
    database_version: Option<&str>,
    resolved_at: i64,
) -> (r: Result<(), String>) {
    // Older files lack the column; the statement fails harmlessly on newer ones.
    execute_sql_ignoring(conn, "ALTER TABLE metadata ADD COLUMN resolved_at INTEGER");
    let params = resolution_metadata_params(database_path, project_specifics, database_version, resolved_at);
    execute_sql(
        conn,
        "UPDATE metadata SET database_path = ?1, project_specifics = ?2, database_version = ?3, resolved_at = ?4 WHERE id = 1",
        &params,
    )?;
    Ok(())
}

/// The parameters that store an entry in the `bom` table: its designator, then its part ID.
pub fn entry_params(e: &BomEntry) -> (p: Vec<SqlValue>)
    ensures
        p@.len() == 2,
        is_text(p@[0], e.designator@),
        is_text(p@[1], e.part_id@),
{
    let mut params: Vec<SqlValue> = Vec::new();
    params.push(SqlValue::Text(e.designator.clone()));
    params.push(SqlValue::Text(e.part_id.clone()));
    params
}

/// Appends `entries` to the `bom` table, in order, stopping at the first failure.
pub fn insert_bom_entries(conn: &rusqlite::Connection, entries: &[BomEntry]) -> (r: Result<(), String>) {
    let sql = "INSERT INTO bom (designator, part_id) VALUES (?1, ?2)";
    prepare_sql(conn, sql)?;
    let mut i: usize = 0;
    while i < entries.len()
        invariant
            i <= entries.len(),
        decreases entries.len() - i,
    {
        let params = entry_params(&entries[i]);
        execute_sql(conn, sql, &params)?;
        i += 1;
    }
    Ok(())
}

/// The text of a query error.
fn query_error_text(e: QueryError) -> (t: String)
    ensures
        t == match e {
            QueryError::Prepare(x) => x,
            QueryError::Query(x) => x,
            QueryError::Row(x) => x,
        },
{
    match e {
        QueryError::Prepare(x) => x,
        QueryError::Query(x) => x,
        QueryError::Row(x) => x,
    }
}

/// The message for a failed query: one prefix per stage, then the error text.
pub(crate) fn stage_message(e: QueryError, prepare: &str, query: &str, row: &str) -> (m: String)
    ensures
        m@ == match e {
            QueryError::Prepare(x) => prepare@ + x@,
            QueryError::Query(x) => query@ + x@,
            QueryError::Row(x) => row@ + x@,
        },
{
    match e {
        QueryError::Prepare(x) => concat(prepare, x.as_str()),
        QueryError::Query(x) => concat(query, x.as_str()),
        QueryError::Row(x) => concat(row, x.as_str()),
    }
}

/// Whether `e` starts with one of `prefixes`.
pub open spec fn prefixed_by_one_of(e: Seq<char>, prefixes: Seq<Seq<char>>) -> bool {
    exists|i: int| 0 <= i < prefixes.len() && (#[trigger] prefixes[i]).is_prefix_of(e)
}

/// A text that starts with one of `prefixes` does.
pub proof fn lemma_prefixed(prefixes: Seq<Seq<char>>, i: int, x: Seq<char>)
    requires
        0 <= i < prefixes.len(),
    ensures
        prefixed_by_one_of(prefixes[i] + x, prefixes),
{
    assert((prefixes[i] + x).subrange(0, prefixes[i].len() as int) =~= prefixes[i]);
}

/// A stage message starts with one of `prefixes` when its three prefixes are among them.
proof fn lemma_stage_prefixed(
    m: Seq<char>,
    e: QueryError,
    a: Seq<char>,
    b: Seq<char>,
    c: Seq<char>,
    prefixes: Seq<Seq<char>>,
    ia: int,
    ib: int,
    ic: int,
)
    requires
        0 <= ia < prefixes.len() && prefixes[ia] == a,
        0 <= ib < prefixes.len() && prefixes[ib] == b,
        0 <= ic < prefixes.len() && prefixes[ic] == c,
        m == match e {
            QueryError::Prepare(x) => a + x@,
            QueryError::Query(x) => b + x@,
            QueryError::Row(x) => c + x@,
        },
    ensures
        prefixed_by_one_of(m, prefixes),
{
    match e {
        QueryError::Prepare(x) => lemma_prefixed(prefixes, ia, x@),
        QueryError::Query(x) => lemma_prefixed(prefixes, ib, x@),
        QueryError::Row(x) => lemma_prefixed(prefixes, ic, x@),
    }
}

/// The beginnings of the messages of a failed lookup of a part.
pub open spec fn part_query_errors() -> Seq<Seq<char>> {
    seq![
        "Failed to query parts table: "@,
        "Failed to read parts rows: "@,
        "Failed to read row: "@,
        "Failed to check alt table existence: "@,
        "Failed to query alt table: "@,
        "Failed to read alt rows: "@,
        "Failed to read alt row: "@,
    ]
}

/// The beginnings of the messages of a failed resolution of a working file.
pub open spec fn bom_resolution_errors() -> Seq<Seq<char>> {
    seq![
        "Failed to migrate bom schema: "@,
        "Failed to read bom entries: "@,
        "Failed to iterate bom: "@,
        "Failed to collect bom entries: "@,
        "Failed to update bom entry: "@,
    ] + part_query_errors()
}

/// Resolution result for a single part ID: `mfr`/`mpn` from the main `parts` table,
/// `alt_mfr`/`alt_mpn` from the project-specific alternative table.
pub struct ResolvedPart {
    pub mfr: Vec<String>,
    pub mpn: Vec<String>,
    pub alt_mfr: Vec<String>,
    pub alt_mpn: Vec<String>,
}

/// The first components of the pairs.
pub open spec fn firsts(rows: Seq<(String, String)>) -> Seq<Seq<char>> {
    rows.map_values(|r: (String, String)| r.0@)
}

/// The second components of the pairs.
pub open spec fn seconds(rows: Seq<(String, String)>) -> Seq<Seq<char>> {
    rows.map_values(|r: (String, String)| r.1@)
}

/// Splits (manufacturer, MPN) rows into the manufacturer list and the MPN list.
pub fn unzip_rows(rows: Vec<(String, String)>) -> (r: (Vec<String>, Vec<String>))
    ensures
        strs(r.0@) == firsts(rows@),
        strs(r.1@) == seconds(rows@),
{
    let mut a: Vec<String> = Vec::new();
    let mut b: Vec<String> = Vec::new();
    let mut i: usize = 0;
    while i < rows.len()
        invariant
            i <= rows.len(),
            a@.len() == i,
            b@.len() == i,
            forall|k: int| 0 <= k < i ==> (#[trigger] a@[k])@ == rows@[k].0@,
            forall|k: int| 0 <= k < i ==> (#[trigger] b@[k])@ == rows@[k].1@,
        decreases rows.len() - i,
    {
        a.push(rows[i].0.clone());
        b.push(rows[i].1.clone());
        i += 1;
    }
    assert(strs(a@) =~= firsts(rows@));
    assert(strs(b@) =~= seconds(rows@));
    (a, b)
}

/// The resolution of a part from its rows in the main table and in the alternative table.
pub fn resolved_from_rows(main: Vec<(String, String)>, alt: Vec<(String, String)>) -> (r: ResolvedPart)
    ensures
        strs(r.mfr@) == firsts(main@),
        strs(r.mpn@) == seconds(main@),
        strs(r.alt_mfr@) == firsts(alt@),
        strs(r.alt_mpn@) == seconds(alt@),
        r.mfr@.len() == main@.len() && r.mpn@.len() == main@.len(),
        r.alt_mfr@.len() == alt@.len() && r.alt_mpn@.len() == alt@.len(),
{
    let (mfr, mpn) = unzip_rows(main);
    assert(strs(mfr@).len() == mfr@.len());
    let (alt_mfr, alt_mpn) = unzip_rows(alt);
    assert(strs(mpn@).len() == mpn@.len());
    assert(strs(alt_mfr@).len() == alt_mfr@.len());
    assert(strs(alt_mpn@).len() == alt_mpn@.len());
    ResolvedPart { mfr, mpn, alt_mfr, alt_mpn }
}

/// The resolution of a part from the rows of the main table, the count of alternative
/// tables of its name, and the rows of the alternative table: the alternatives are used
/// only when that table exists.
pub fn resolution_of(main: Vec<(String, String)>, alt_count: i64, alt: Vec<(String, String)>) -> (r: ResolvedPart)
    ensures
        strs(r.mfr@) == firsts(main@),
        strs(r.mpn@) == seconds(main@),
        strs(r.alt_mfr@) == (if alt_count > 0 {
            firsts(alt@)
        } else {
            Seq::empty()
        }),
        strs(r.alt_mpn@) == (if alt_count > 0 {
            seconds(alt@)
        } else {
            Seq::empty()
        }),
        r.mfr@.len() == r.mpn@.len(),
        r.alt_mfr@.len() == r.alt_mpn@.len(),
        alt_count <= 0 ==> r.alt_mfr@.len() == 0,
{
    if alt_count > 0 {
        resolved_from_rows(main, alt)
    } else {
        let none: Vec<(String, String)> = Vec::new();
        let r = resolved_from_rows(main, none);
        assert(firsts(none@) =~= Seq::<Seq<char>>::empty());
        assert(seconds(none@) =~= Seq::<Seq<char>>::empty());
        r
    }
}

/// The prefix of the alternative tables' names.
pub open spec fn alt_prefix() -> Seq<char> {
    seq!['a', 'l', 't', '_']
}

/// The name of the alternative table of a project-specifics identifier: `alt_` and the
/// identifier.
pub fn alt_table_name(specifics: &str) -> (r: String)
    ensures
        r@ == alt_prefix() + specifics@,
{
    proof {
        reveal_strlit("alt_");
    }
    let r = concat("alt_", specifics);
    assert(r@ =~= alt_prefix() + specifics@);
    r
}

/// The query of the manufacturer/MPN rows of a part in the alternative table of
/// `specifics`.
pub fn alt_rows_query(specifics: &str) -> (q: String)
    ensures
        q@ == "SELECT mfr, mpn FROM "@ + alt_prefix() + specifics@ + " WHERE ID = ?1"@,
{
    let alt_table = alt_table_name(specifics);
    let q1 = concat("SELECT mfr, mpn FROM ", alt_table.as_str());
    let q = concat(q1.as_str(), " WHERE ID = ?1");
    assert(q@ =~= "SELECT mfr, mpn FROM "@ + alt_prefix() + specifics@ + " WHERE ID = ?1"@);
    q
}

/// The query of the manufacturer/MPN rows of a part in the main `parts` table.
pub open spec fn parts_query_text() -> Seq<char> {
    "SELECT mfr, mpn FROM parts WHERE ID = ?1"@
}

/// The query of a part's manufacturer/MPN rows in the main table, with its one parameter:
/// the part ID.
pub fn parts_lookup(part_id: &str) -> (q: (&'static str, &str))
    ensures
        q.0@ == parts_query_text(),
        q.1@ == part_id@,
{
    ("SELECT mfr, mpn FROM parts WHERE ID = ?1", part_id)
}

/// The query of how many tables have a given name.
pub open spec fn table_count_query_text() -> Seq<char> {
    "SELECT COUNT(*) FROM sqlite_master WHERE type='table' AND name=?1"@
}

/// The query whether the alternative table of `specifics` exists, with its one parameter:
/// that table's name.
pub fn alt_table_lookup(specifics: &str) -> (q: (&'static str, String))
    ensures
        q.0@ == table_count_query_text(),
        q.1@ == alt_prefix() + specifics@,
{
    ("SELECT COUNT(*) FROM sqlite_master WHERE type='table' AND name=?1", alt_table_name(specifics))
}

/// `p` holds the manufacturers and MPNs of the `main` rows and of the `alt` rows.
pub open spec fn resolution_matches(p: ResolvedPart, main: Seq<(String, String)>, alt: Seq<(String, String)>) -> bool {
    &&& strs(p.mfr@) == firsts(main)
    &&& strs(p.mpn@) == seconds(main)
    &&& strs(p.alt_mfr@) == firsts(alt)
    &&& strs(p.alt_mpn@) == seconds(alt)
}

/// `p` is the resolution of some rows of the main table and of the alternative table; there
/// are no alternative rows when none were looked up.
pub open spec fn resolved_from_some_rows(p: ResolvedPart, alternatives_looked_up: bool) -> bool {
    exists|main: Seq<(String, String)>, alt: Seq<(String, String)>|
        #[trigger] resolution_matches(p, main, alt) && (!alternatives_looked_up ==> alt.len() == 0)
}

/// Queries the parts database for all manufacturer/MPN pairs of `part_id`.
///
/// Results from the main `parts` table go into `mfr`/`mpn`. When `project_specifics` is
/// `Some(s)` and the table `alt_s` exists, its matches go into `alt_mfr`/`alt_mpn`; otherwise
/// those stay empty.
pub fn resolve_part_id(nextdb_conn: &rusqlite::Connection, part_id: &str, project_specifics: Option<&str>) -> (r: Result<ResolvedPart, String>)
    ensures
        r matches Ok(p) ==> resolved_from_some_rows(p, project_specifics is Some),
        r matches Ok(p) ==> {
            &&& p.mfr@.len() == p.mpn@.len()
            &&& p.alt_mfr@.len() == p.alt_mpn@.len()
            &&& project_specifics is None ==> p.alt_mfr@.len() == 0
        },
        r matches Err(e) ==> prefixed_by_one_of(e@, part_query_errors()),
{
    let (parts_sql, parts_param) = parts_lookup(part_id);
    let main = match query_text_pairs(nextdb_conn, parts_sql, Some(parts_param)) {
        Ok(rows) => rows,
        Err(e) => {
            let ghost ge = e;
            let m = stage_message(e, "Failed to query parts table: ", "Failed to read parts rows: ", "Failed to read row: ");
            proof {
                lemma_stage_prefixed(m@, ge, "Failed to query parts table: "@, "Failed to read parts rows: "@, "Failed to read row: "@, part_query_errors(), 0, 1, 2);
            }
            return Err(m);
        },
    };
    let mut alt: Vec<(String, String)> = Vec::new();
    let mut alt_count: i64 = 0;
    if let Some(specifics) = project_specifics {
        let (count_sql, alt_table) = alt_table_lookup(specifics);
        let exists = match query_count(nextdb_conn, count_sql, Some(alt_table.as_str())) {
            Ok(n) => n,
            Err(e) => {
                let m = concat("Failed to check alt table existence: ", e.as_str());
                proof {
                    lemma_prefixed(part_query_errors(), 3, e@);
                }
                return Err(m);
            },
        };
        alt_count = exists;
        if exists > 0 {
            let query = alt_rows_query(specifics);
            alt = match query_text_pairs(nextdb_conn, query.as_str(), Some(part_id)) {
                Ok(rows) => rows,
                Err(e) => {
                    let ghost ge = e;
                    let m = stage_message(e, "Failed to query alt table: ", "Failed to read alt rows: ", "Failed to read alt row: ");
                    proof {
                        lemma_stage_prefixed(m@, ge, "Failed to query alt table: "@, "Failed to read alt rows: "@, "Failed to read alt row: "@, part_query_errors(), 4, 5, 6);
                    }
                    return Err(m);
                },
            };
        }
    }
    let ghost main_rows = main@;
    let ghost alt_rows = if alt_count > 0 {
        alt@
    } else {
        Seq::<(String, String)>::empty()
    };
    let p = resolution_of(main, alt_count, alt);
    proof {
        assert(firsts(Seq::<(String, String)>::empty()) =~= Seq::<Seq<char>>::empty());
        assert(seconds(Seq::<(String, String)>::empty()) =~= Seq::<Seq<char>>::empty());
        assert(resolution_matches(p, main_rows, alt_rows));
    }
    Ok(p)
}

/// The four JSON texts stored for a resolved part: `mfr`, `mpn`, `alt_mfr`, `alt_mpn`.
pub fn resolution_texts(p: &ResolvedPart) -> (r: Result<(String, String, String, String), String>)
    ensures
        r is Ok,
        r matches Ok(t) ==> {
            &&& t.0@ == json_array_text(strs(p.mfr@))
            &&& t.1@ == json_array_text(strs(p.mpn@))
            &&& t.2@ == json_array_text(strs(p.alt_mfr@))
            &&& t.3@ == json_array_text(strs(p.alt_mpn@))
        },
        r matches Ok(t) ==> {
            &&& stored_list(Some(t.0)) == strs(p.mfr@)
            &&& stored_list(Some(t.1)) == strs(p.mpn@)
            &&& stored_list(Some(t.2)) == strs(p.alt_mfr@)
            &&& stored_list(Some(t.3)) == strs(p.alt_mpn@)
        },
{
    let a = match to_json_array(&p.mfr) {
        Ok(s) => s,
        Err(e) => {
            return Err(concat("Failed to serialize mfr: ", e.as_str()));
        },
    };
    let b = match to_json_array(&p.mpn) {
        Ok(s) => s,
        Err(e) => {
            return Err(concat("Failed to serialize mpn: ", e.as_str()));
        },
    };
    let c = match to_json_array(&p.alt_mfr) {
        Ok(s) => s,
        Err(e) => {
            return Err(concat("Failed to serialize alt_mfr: ", e.as_str()));
        },
    };
    let d = match to_json_array(&p.alt_mpn) {
        Ok(s) => s,
        Err(e) => {
            return Err(concat("Failed to serialize alt_mpn: ", e.as_str()));
        },
    };
    Ok((a, b, c, d))
}

/// The statement that adds the text column `col` to the `bom` table, when the count of
/// columns of that name shows it missing.
pub fn missing_column_statement(col: &str, count: i64) -> (r: Option<String>)
    ensures
        count > 0 ==> r is None,
        count <= 0 ==> (r matches Some(sql) && sql@ == "ALTER TABLE bom ADD COLUMN "@ + col@ + " TEXT"@),
{
    if count > 0 {
        None
    } else {
        let a = concat("ALTER TABLE bom ADD COLUMN ", col);
        Some(concat(a.as_str(), " TEXT"))
    }
}

/// Adds the `mfr`, `mpn`, `alt_mfr` and `alt_mpn` columns to the `bom` table where missing.
///
/// Checks `pragma_table_info` before each `ALTER TABLE`, so it is safe to call on a table
/// that has them already.
pub fn migrate_bom_for_resolution(conn: &rusqlite::Connection) -> (r: Result<(), String>) {
    let cols = ["mfr", "mpn", "alt_mfr", "alt_mpn"];
    let no_params: Vec<SqlValue> = Vec::new();
    let mut i: usize = 0;
    while i < 4
        invariant
            i <= 4,
        decreases 4 - i,
    {
        let col = cols[i];
        let count = query_count(conn, "SELECT COUNT(*) FROM pragma_table_info('bom') WHERE name=?1", Some(col))?;
        match missing_column_statement(col, count) {
            Some(sql) => {
                execute_sql(conn, sql.as_str(), &no_params)?;
            },
            None => {},
        }
        i += 1;
    }
    Ok(())
}

/// The parameters that store the resolution of an entry: the four JSON texts (`mfr`, `mpn`,
/// `alt_mfr`, `alt_mpn`), then the entry's designator.
pub fn update_params(texts: (String, String, String, String), designator: &String) -> (p: Vec<SqlValue>)
    ensures
        p@.len() == 5,
        is_text(p@[0], texts.0@),
        is_text(p@[1], texts.1@),
        is_text(p@[2], texts.2@),
        is_text(p@[3], texts.3@),
        is_text(p@[4], designator@),
{
    let (a, b, c, d) = texts;
    let mut params: Vec<SqlValue> = Vec::new();
    params.push(SqlValue::Text(a));
    params.push(SqlValue::Text(b));
    params.push(SqlValue::Text(c));
    params.push(SqlValue::Text(d));
    params.push(SqlValue::Text(designator.clone()));
    params
}

/// The statement that stores the four JSON texts of a resolved entry, found by its
/// designator.
pub fn update_resolution_statement() -> (q: &'static str)
    ensures
        q@ == "UPDATE bom SET mfr = ?1, mpn = ?2, alt_mfr = ?3, alt_mpn = ?4 WHERE designator = ?5"@,
{
    "UPDATE bom SET mfr = ?1, mpn = ?2, alt_mfr = ?3, alt_mpn = ?4 WHERE designator = ?5"
}

/// The query of the designator and part ID of every row of the `bom` table.
pub fn bom_entries_query() -> (q: &'static str)
    ensures
        q@ == "SELECT designator, part_id FROM bom"@,
{
    "SELECT designator, part_id FROM bom"
}

/// Resolves each (designator, part ID) row in turn and stores its lists, stopping at the
/// first failure; on success, the number of rows.
pub fn store_resolutions(
    nextbom_conn: &rusqlite::Connection,
    nextdb_conn: &rusqlite::Connection,
    entries: &Vec<(String, String)>,
    project_specifics: Option<&str>,
) -> (r: Result<usize, String>)
    ensures
        r matches Ok(n) ==> n == entries@.len(),
        r matches Err(e) ==> prefixed_by_one_of(e@, bom_resolution_errors()),
{
    proof {
        assert forall|i: int| 0 <= i < part_query_errors().len() implies #[trigger] bom_resolution_errors()[i + 5]
            == part_query_errors()[i] by {}
    }
    let mut i: usize = 0;
    while i < entries.len()
        invariant
            i <= entries.len(),
            forall|i: int| 0 <= i < part_query_errors().len() ==> #[trigger] bom_resolution_errors()[i + 5]
                == part_query_errors()[i],
        decreases entries.len() - i,
    {
        let designator = &entries[i].0;
        let part_id = &entries[i].1;
        let resolved = match resolve_part_id(nextdb_conn, part_id.as_str(), project_specifics) {
            Ok(p) => p,
            Err(e) => {
                proof {
                    let k = choose|k: int| 0 <= k < part_query_errors().len() && (#[trigger] part_query_errors()[k]).is_prefix_of(e@);
                    assert(bom_resolution_errors()[k + 5] == part_query_errors()[k]);
                }
                return Err(e);
            },
        };
        let params = update_params(resolution_texts(&resolved).unwrap(), designator);
        match execute_sql(nextbom_conn, update_resolution_statement(), &params) {
            Ok(_) => {},
            Err(e) => {
                let m = concat("Failed to update bom entry: ", e.as_str());
                proof {
                    lemma_prefixed(bom_resolution_errors(), 4, e@);
                }
                return Err(m);
            },
        }
        i += 1;
    }
    Ok(entries.len())
}

/// Resolves every entry of the `bom` table of `nextbom_conn` against the parts database in
/// `nextdb_conn`, and returns the number of entries.
///
/// Adds the resolution columns where missing, then stores, for each entry, the JSON arrays
/// of the manufacturers and MPNs found for its part ID (main table in `mfr`/`mpn`,
/// alternative table in `alt_mfr`/`alt_mpn`). The `part_id` column is left untouched.
pub fn resolve_bom_entries(
    nextbom_conn: &rusqlite::Connection,
    nextdb_conn: &rusqlite::Connection,
    project_specifics: Option<&str>,
) -> (r: Result<usize, String>)
    ensures
        r matches Err(e) ==> prefixed_by_one_of(e@, bom_resolution_errors()),
{
    match migrate_bom_for_resolution(nextbom_conn) {
        Ok(()) => {},
        Err(e) => {
            let m = concat("Failed to migrate bom schema: ", e.as_str());
            proof {
                lemma_prefixed(bom_resolution_errors(), 0, e@);
            }
            return Err(m);
        },
    }
    let entries = match query_text_pairs(nextbom_conn, bom_entries_query(), None) {
        Ok(rows) => rows,
        Err(e) => {
            let ghost ge = e;
            let m = stage_message(e, "Failed to read bom entries: ", "Failed to iterate bom: ", "Failed to collect bom entries: ");
            proof {
                lemma_stage_prefixed(m@, ge, "Failed to read bom entries: "@, "Failed to iterate bom: "@, "Failed to collect bom entries: "@, bom_resolution_errors(), 1, 2, 3);
            }
            return Err(m);
        },
    };
    store_resolutions(nextbom_conn, nextdb_conn, &entries, project_specifics)
}

/// The strings stored as a JSON array in a cell: none when the cell is NULL or does not hold
/// an array of strings.
pub open spec fn stored_list(cell: Option<String>) -> Seq<Seq<char>> {
    match cell {
        Some(text) => match json_array_parse(text@) {
            Some(v) => v,
            None => Seq::empty(),
        },
        None => Seq::empty(),
    }
}

/// The strings stored as a JSON array in a cell.
pub fn parse_stored_list(cell: &Option<String>) -> (r: Vec<String>)
    ensures
        strs(r@) == stored_list(*cell),
{
    match cell {
        Some(text) => match from_json_array(text.as_str()) {
            Some(v) => v,
            None => {
                let v: Vec<String> = Vec::new();
                assert(strs(v@) =~= Seq::<Seq<char>>::empty());
                v
            },
        },
        None => {
            let v: Vec<String> = Vec::new();
            assert(strs(v@) =~= Seq::<Seq<char>>::empty());
            v
        },
    }
}

/// The resolved entry of a row of the `bom` table.
pub fn entry_from_row(row: &BomRow) -> (e: ResolvedBomEntry)
    ensures
        entry_matches_row(e, *row),
{
    let mfr = parse_stored_list(&row.mfr);
    let mpn = parse_stored_list(&row.mpn);
    let alt_mfr = parse_stored_list(&row.alt_mfr);
    let alt_mpn = parse_stored_list(&row.alt_mpn);
    ResolvedBomEntry {
        designator: row.designator.clone(),
        part_id: row.part_id.clone(),
        mfr,
        mpn,
        alt_mfr,
        alt_mpn,
    }
}

/// `e` is the resolved entry of `row`: same designator and part ID, and the stored lists.
pub open spec fn entry_matches_row(e: ResolvedBomEntry, row: BomRow) -> bool {
    &&& e.designator == row.designator
    &&& e.part_id == row.part_id
    &&& strs(e.mfr@) == stored_list(row.mfr)
    &&& strs(e.mpn@) == stored_list(row.mpn)
    &&& strs(e.alt_mfr@) == stored_list(row.alt_mfr)
    &&& strs(e.alt_mpn@) == stored_list(row.alt_mpn)
}

/// Each entry is the resolved entry of the row at its position.
pub open spec fn entries_match_rows(v: Seq<ResolvedBomEntry>, rows: Seq<BomRow>) -> bool {
    &&& rows.len() == v.len()
    &&& forall|i: int| 0 <= i < rows.len() ==> entry_matches_row(#[trigger] v[i], rows[i])
}

/// `s` holds the rows of `rows` in ascending order of designator.
pub open spec fn sorted_by_designator(s: Seq<BomRow>, rows: Seq<BomRow>) -> bool {
    &&& s.to_multiset() == rows.to_multiset()
    &&& sorted_strs(row_designators(s))
}

/// `v` is `rows` in ascending order of designator, each row read as its resolved entry.
pub open spec fn resolved_from(v: Seq<ResolvedBomEntry>, rows: Seq<BomRow>) -> bool {
    exists|s: Seq<BomRow>| #[trigger] sorted_by_designator(s, rows) && entries_match_rows(v, s)
}

/// `v` is what some rows of the `bom` table read as: those rows by designator, each as its
/// resolved entry.
pub open spec fn read_from_rows(v: Seq<ResolvedBomEntry>) -> bool {
    exists|rows: Seq<BomRow>| #[trigger] resolved_from(v, rows)
}

/// The resolved entries of rows of the `bom` table, in order.
pub fn entries_from_rows(rows: &Vec<BomRow>) -> (out: Vec<ResolvedBomEntry>)
    ensures
        out@.len() == rows@.len(),
        forall|i: int| 0 <= i < rows@.len() ==> entry_matches_row(#[trigger] out@[i], rows@[i]),
{
    let mut out: Vec<ResolvedBomEntry> = Vec::new();
    let mut i: usize = 0;
    while i < rows.len()
        invariant
            i <= rows@.len(),
            out@.len() == i,
            forall|k: int| 0 <= k < i ==> entry_matches_row(#[trigger] out@[k], rows@[k]),
        decreases rows@.len() - i,
    {
        out.push(entry_from_row(&rows[i]));
        i += 1;
    }
    out
}

/// The designators of rows, in order.
pub open spec fn row_designators(rows: Seq<BomRow>) -> Seq<Seq<char>> {
    rows.map_values(|r: BomRow| r.designator@)
}

/// The designators of entries, in order.
pub open spec fn entry_designators(v: Seq<ResolvedBomEntry>) -> Seq<Seq<char>> {
    v.map_values(|e: ResolvedBomEntry| e.designator@)
}

/// The rows in ascending order of designator.
pub fn sort_rows(rows: Vec<BomRow>) -> (r: Vec<BomRow>)
    ensures
        sorted_strs(row_designators(r@)),
        r@.to_multiset() == rows@.to_multiset(),
{
    broadcast use vstd::seq_lib::group_to_multiset_ensures;

    let ghost all = rows@;
    let mut rest = rows;
    let mut out: Vec<BomRow> = Vec::new();
    assert(out@.to_multiset().add(rest@.to_multiset()) =~= all.to_multiset());
    while rest.len() > 0
        invariant
            sorted_strs(row_designators(out@)),
            out@.to_multiset().add(rest@.to_multiset()) == all.to_multiset(),
        decreases rest@.len(),
    {
        let ghost before_rest = rest@;
        let x = rest.pop().unwrap();
        assert(before_rest =~= rest@.push(x));
        let ghost xv = x;
        proof {
            rest@.to_multiset_ensures();
        }
        assert(before_rest.to_multiset() =~= rest@.to_multiset().insert(xv));
        let mut p: usize = 0;
        while p < out.len() && !str_less(x.designator.as_str(), out[p].designator.as_str())
            invariant
                p <= out.len(),
                forall|q: int| 0 <= q < p ==> str_le(#[trigger] row_designators(out@)[q], x.designator@),
            decreases out.len() - p,
        {
            proof {
                lemma_str_lt_total(x.designator@, out@[p as int].designator@);
            }
            p += 1;
        }
        let ghost o_rows = out@;
        let ghost xd = x.designator@;
        out.insert(p, x);
        proof {
            lemma_insert_multiset(o_rows, p as int, xv);
            assert(out@ =~= o_rows.insert(p as int, xv));
            assert(out@.to_multiset() =~= o_rows.to_multiset().insert(xv));
            let o = row_designators(o_rows);
            let n = row_designators(out@);
            assert(n =~= o.insert(p as int, xd));
            assert forall|a: int, b: int| 0 <= a < b < n.len() implies str_le(
                #[trigger] n[a],
                #[trigger] n[b],
            ) by {
                if b < p {
                } else if a < p && b == p {
                } else if a < p {
                    assert(str_lt(xd, o[p as int]));
                    if b - 1 > p {
                        assert(str_le(o[p as int], o[b - 1]));
                    }
                    lemma_str_le_transitive(xd, o[p as int], o[b - 1]);
                    lemma_str_le_transitive(o[a], xd, o[b - 1]);
                } else if a == p {
                    assert(str_lt(xd, o[p as int]));
                    if b - 1 > p {
                        assert(str_le(o[p as int], o[b - 1]));
                    }
                    lemma_str_le_transitive(xd, o[p as int], o[b - 1]);
                } else {
                    assert(str_le(o[a - 1], o[b - 1]));
                }
            }
            assert(out@.to_multiset().add(rest@.to_multiset()) =~= all.to_multiset());
        }
    }
    assert(rest@.to_multiset() =~= vstd::multiset::Multiset::<BomRow>::empty());
    assert(out@.to_multiset().add(vstd::multiset::Multiset::empty()) =~= out@.to_multiset());
    out
}

/// The rows of the `bom` table in ascending order of designator, each read as its resolved
/// entry: the stored JSON lists, or none for a NULL or unreadable cell.
pub fn resolved_entries(rows: Vec<BomRow>) -> (v: Vec<ResolvedBomEntry>)
    ensures
        resolved_from(v@, rows@),
        sorted_strs(entry_designators(v@)),
{
    let ghost all = rows@;
    let sorted = sort_rows(rows);
    let out = entries_from_rows(&sorted);
    assert(entries_match_rows(out@, sorted@));
    assert(sorted_by_designator(sorted@, all));
    assert(entry_designators(out@) =~= row_designators(sorted@)) by {
        assert forall|i: int| 0 <= i < out@.len() implies entry_designators(out@)[i] == row_designators(sorted@)[i] by {
            assert(entry_matches_row(out@[i], sorted@[i]));
        }
    }
    out
}

/// Rows with the same multiset have designators with the same multiset.
proof fn lemma_row_designators_permute(a: Seq<BomRow>, b: Seq<BomRow>)
    requires
        a.to_multiset() == b.to_multiset(),
    ensures
        row_designators(a).to_multiset() == row_designators(b).to_multiset(),
    decreases a.len(),
{
    broadcast use vstd::seq_lib::group_to_multiset_ensures;

    if a.len() == 0 {
        assert(b.len() == 0) by {
            assert(a.to_multiset().len() == a.len());
            assert(b.to_multiset().len() == b.len());
        }
        assert(row_designators(a) =~= row_designators(b));
    } else {
        let x = a.last();
        assert(a.to_multiset().contains(x)) by {
            assert(a =~= a.drop_last().push(x));
        }
        assert(b.to_multiset().contains(x));
        let j = choose|j: int| 0 <= j < b.len() && b[j] == x;
        assert(a =~= a.drop_last().push(x));
        assert(a.drop_last().to_multiset() =~= b.remove(j).to_multiset()) by {
            assert(a.to_multiset() == a.drop_last().to_multiset().insert(x));
            assert(b.remove(j).to_multiset() == b.to_multiset().remove(x));
        }
        lemma_row_designators_permute(a.drop_last(), b.remove(j));
        assert(row_designators(a) =~= row_designators(a.drop_last()).push(x.designator@));
        assert(row_designators(b.remove(j)) =~= row_designators(b).remove(j));
        assert(row_designators(b).to_multiset() == row_designators(b).remove(j).to_multiset().insert(
            x.designator@,
        ));
    }
}

/// Reading rows back loses none and adds none: there is one entry per row, and the entries'
/// designators are the rows' designators, each as often.
pub proof fn lemma_resolved_entries_one_per_row(v: Seq<ResolvedBomEntry>, rows: Seq<BomRow>)
    requires
        resolved_from(v, rows),
    ensures
        v.len() == rows.len(),
        entry_designators(v).to_multiset() == row_designators(rows).to_multiset(),
{
    broadcast use vstd::seq_lib::group_to_multiset_ensures;

    let s = choose|s: Seq<BomRow>| #[trigger] sorted_by_designator(s, rows) && entries_match_rows(v, s);
    assert(s.len() == rows.len()) by {
        assert(s.to_multiset().len() == rows.to_multiset().len());
    }
    assert(entry_designators(v) =~= row_designators(s)) by {
        assert forall|i: int| 0 <= i < v.len() implies entry_designators(v)[i] == row_designators(s)[i] by {
            assert(entry_matches_row(v[i], s[i]));
        }
    }
    lemma_row_designators_permute(s, rows);
}

/// The query whether the `bom` table has the `mfr` column, which resolution adds.
pub open spec fn resolution_columns_query_text() -> Seq<char> {
    "SELECT COUNT(*) FROM pragma_table_info('bom') WHERE name='mfr'"@
}

/// The query whether the `bom` table has the `mfr` column, which resolution adds.
pub fn resolution_columns_query() -> (q: &'static str)
    ensures
        q@ == resolution_columns_query_text(),
{
    "SELECT COUNT(*) FROM pragma_table_info('bom') WHERE name='mfr'"
}

/// The query of all rows of the `bom` table: with the four resolution columns when the table
/// has them, else designator and part ID alone.
pub open spec fn bom_rows_query_text(resolved: bool) -> Seq<char> {
    if resolved {
        "SELECT designator, part_id, mfr, mpn, alt_mfr, alt_mpn FROM bom ORDER BY designator"@
    } else {
        "SELECT designator, part_id FROM bom ORDER BY designator"@
    }
}

/// The query of all rows of the `bom` table: with the four resolution columns when the table
/// has them, else designator and part ID alone.
pub fn bom_rows_query(resolved: bool) -> (q: &'static str)
    ensures
        q@ == bom_rows_query_text(resolved),
{
    if resolved {
        "SELECT designator, part_id, mfr, mpn, alt_mfr, alt_mpn FROM bom ORDER BY designator"
    } else {
        "SELECT designator, part_id FROM bom ORDER BY designator"
    }
}

/// The rows of a working file not yet resolved: designator and part ID, no stored lists.
pub fn rows_without_resolution(pairs: &Vec<(String, String)>) -> (rows: Vec<BomRow>)
    ensures
        rows@.len() == pairs@.len(),
        forall|i: int|
            0 <= i < pairs@.len() ==> {
                &&& (#[trigger] rows@[i]).designator@ == pairs@[i].0@
                &&& rows@[i].part_id@ == pairs@[i].1@
                &&& rows@[i].mfr is None && rows@[i].mpn is None
                &&& rows@[i].alt_mfr is None && rows@[i].alt_mpn is None
            },
{
    let mut rows: Vec<BomRow> = Vec::new();
    let mut i: usize = 0;
    while i < pairs.len()
        invariant
            i <= pairs@.len(),
            rows@.len() == i,
            forall|k: int|
                0 <= k < i ==> {
                    &&& (#[trigger] rows@[k]).designator@ == pairs@[k].0@
                    &&& rows@[k].part_id@ == pairs@[k].1@
                    &&& rows@[k].mfr is None && rows@[k].mpn is None
                    &&& rows@[k].alt_mfr is None && rows@[k].alt_mpn is None
                },
        decreases pairs@.len() - i,
    {
        let (d, p) = (pairs[i].0.clone(), pairs[i].1.clone());
        rows.push(BomRow { designator: d, part_id: p, mfr: None, mpn: None, alt_mfr: None, alt_mpn: None });
        i += 1;
    }
    rows
}

/// Reads all rows of the `bom` table as resolved entries, in ascending order of designator.
///
/// A working file not yet resolved (without the `mfr` column) gives entries with empty
/// manufacturer and MPN lists; a NULL or unreadable JSON cell gives an empty list.
pub fn read_resolved_bom(conn: &rusqlite::Connection) -> (r: Result<Vec<ResolvedBomEntry>, String>)
    ensures
        r matches Ok(entries) ==> read_from_rows(entries@),
        r matches Ok(entries) ==> sorted_strs(entry_designators(entries@)),
{
    let has_resolution_cols = match query_count(conn, resolution_columns_query(), None) {
        Ok(n) => n,
        Err(e) => return Err(e),
    };
    let resolved = has_resolution_cols > 0;
    let rows = if resolved {
        match query_bom_rows(conn, bom_rows_query(resolved)) {
            Ok(rows) => rows,
            Err(e) => return Err(e),
        }
    } else {
        match query_text_pairs(conn, bom_rows_query(resolved), None) {
            Ok(p) => rows_without_resolution(&p),
            Err(e) => {
                return Err(query_error_text(e));
            },
        }
    };
    let ghost read = rows@;
    let out = resolved_entries(rows);
    assert(resolved_from(out@, read));
    Ok(out)
}

} // verus!

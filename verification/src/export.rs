//! The export of a resolved working file: what is read from its metadata row, the default
//! file name, and the creation date printed into the sheet.
//!
//! Every value printed into the export comes from the working file, not from the open
//! project or the clock.

use vstd::prelude::*;
use crate::db::execute_sql_ignoring;
use crate::text::concat;

verus! {

/// The metadata row of a working file as the export reads it.
pub struct ExportRow {
    pub pcb_name: String,
    pub bom_version: String,
    pub design_variant: String,
    pub engineer: Option<String>,
    pub csv_imported_at: i64,
    pub project_specifics: Option<String>,
}

/// The metadata row of a working file (`rusqlite::Connection::query_row` on the `metadata`
/// table); the error is the text of `rusqlite::Error`. What it returns depends on the file.
#[verifier::external_body]
fn query_export_row(conn: &rusqlite::Connection) -> Result<ExportRow, String> {
    conn.query_row(
        "SELECT pcb_name, bom_version, design_variant, engineer, csv_imported_at, project_specifics FROM metadata WHERE id = 1",
        [],
        |row| Ok(ExportRow {
            pcb_name: row.get(0)?, bom_version: row.get(1)?, design_variant: row.get(2)?,
            engineer: row.get(3)?, csv_imported_at: row.get(4)?, project_specifics: row.get(5)?,
        }),
    ).map_err(|e| e.to_string())
}

/// The text `chrono` gives for the UTC date of a Unix time in milliseconds, formatted
/// `%Y-%m-%d`, when the time is within `chrono`'s range.
pub uninterp spec fn utc_date_text(millis: i64) -> Option<Seq<char>>;

/// `chrono::DateTime::<Utc>::from_timestamp_millis(millis)` formatted with `%Y-%m-%d`;
/// `None` when the time is out of `chrono`'s range.
#[verifier::external_body]
fn format_utc_date(millis: i64) -> (r: Option<String>)
    ensures
        match utc_date_text(millis) {
            Some(t) => r matches Some(s) && s@ == t,
            None => r is None,
        },
{
    chrono::DateTime::<chrono::Utc>::from_timestamp_millis(millis).map(|dt| dt.format("%Y-%m-%d").to_string())
}

/// What the export takes from a working file.
pub struct ExportHeader {
    pub pcb_name: String,
    pub bom_version: String,
    pub design_variant: String,
    pub engineer: String,
    pub creation_date: String,
    pub project_specifics: Option<String>,
    pub default_filename: String,
}

/// `h` is the export header of the metadata row `row`, or of its absence.
pub open spec fn header_of_row(row: Result<ExportRow, String>, h: ExportHeader) -> bool {
    match row {
        Ok(r) => {
            &&& h.pcb_name == r.pcb_name
            &&& h.bom_version == r.bom_version
            &&& h.design_variant == r.design_variant
            &&& h.engineer@ == match r.engineer {
                Some(e) => e@,
                None => Seq::<char>::empty(),
            }
            &&& h.project_specifics == r.project_specifics
            &&& h.default_filename@ == r.pcb_name@ + "_v"@ + r.bom_version@ + ".xlsx"@
            &&& h.creation_date@ == match utc_date_text(r.csv_imported_at) {
                Some(t) => t,
                None => Seq::<char>::empty(),
            }
        },
        Err(_) => {
            &&& h.pcb_name@.len() == 0
            &&& h.bom_version@.len() == 0
            &&& h.design_variant@.len() == 0
            &&& h.engineer@.len() == 0
            &&& h.project_specifics is None
            &&& h.default_filename@ == "bom.xlsx"@
            &&& h.creation_date@ == match utc_date_text(0) {
                Some(t) => t,
                None => Seq::<char>::empty(),
            }
        },
    }
}

/// `h` is the export header of some metadata row, or of its absence.
pub open spec fn header_from_some_row(h: ExportHeader) -> bool {
    exists|row: Result<ExportRow, String>| #[trigger] header_of_row(row, h)
}

/// The export header of a metadata row, or of its absence: the default file name is
/// `{pcb_name}_v{bom_version}.xlsx`, the engineer empty when NULL, the creation date the
/// import date; without a row every text is empty, the date that of time 0, and the file
/// name `bom.xlsx`.
pub fn export_header_of(row: Result<ExportRow, String>) -> (h: ExportHeader)
    ensures
        header_of_row(row, h),
{
    let (pcb_name, bom_version, design_variant, engineer, imported_at, specifics, filename) = match row {
        Ok(r) => {
            let a = concat(r.pcb_name.as_str(), "_v");
            let b = concat(a.as_str(), r.bom_version.as_str());
            let name = concat(b.as_str(), ".xlsx");
            let engineer = match r.engineer {
                Some(e) => e,
                None => String::new(),
            };
            (r.pcb_name, r.bom_version, r.design_variant, engineer, r.csv_imported_at, r.project_specifics, name)
        },
        Err(_) => (
            String::new(),
            String::new(),
            String::new(),
            String::new(),
            0,
            None,
            String::from_str("bom.xlsx"),
        ),
    };
    let creation_date = match format_utc_date(imported_at) {
        Some(d) => d,
        None => String::new(),
    };
    ExportHeader {
        pcb_name,
        bom_version,
        design_variant,
        engineer,
        creation_date,
        project_specifics: specifics,
        default_filename: filename,
    }
}

/// The export header depends on the metadata row alone: two exports of the same working
/// file agree on the file name they propose and on every value they print, whatever else
/// differs between them (the open project, the time of the export).
pub proof fn lemma_export_header_determined_by_row(
    row: Result<ExportRow, String>,
    h1: ExportHeader,
    h2: ExportHeader,
)
    requires
        header_of_row(row, h1),
        header_of_row(row, h2),
    ensures
        h1.default_filename@ == h2.default_filename@,
        h1.pcb_name@ == h2.pcb_name@,
        h1.bom_version@ == h2.bom_version@,
        h1.design_variant@ == h2.design_variant@,
        h1.engineer@ == h2.engineer@,
        h1.creation_date@ == h2.creation_date@,
        h1.project_specifics == h2.project_specifics,
{
}

/// Reads the export header of a working file, adding the `engineer` column to files that
/// predate it. A missing or unreadable metadata row gives the defaults of
/// [`export_header_of`].
pub fn read_export_header(conn: &rusqlite::Connection) -> (h: ExportHeader)
    ensures
        header_from_some_row(h),
{
    execute_sql_ignoring(conn, "ALTER TABLE metadata ADD COLUMN engineer TEXT");
    let row = query_export_row(conn);
    let ghost g = row;
    let h = export_header_of(row);
    assert(header_of_row(g, h));
    h
}

} // verus!

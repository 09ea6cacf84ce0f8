//! BOM rows: the entries imported from a component list, the resolved entries read back from
//! a `.nextbom` working file, and the grouped rows of the exported BOM.

use vstd::prelude::*;
use crate::text::{lemma_str_lt_irreflexive, str_lt, trim, trim_str, concat, concat_lists, join, join_strs, sort_strings, sorted_strs, strictly_sorted_strs, strs, insert_sorted_unique};

verus! {

/// A single row in the BOM table, mapping a schematic designator to a generic part ID.
///
/// `designator` is the reference designator on the schematic (e.g. `R1`, `C3`); it uniquely
/// identifies a component placement. `part_id` is the designer-assigned generic identifier,
/// resolved to a manufacturer part number during BOM generation.
#[derive(Debug, Clone)]
pub struct BomEntry {
    /// Schematic reference designator (e.g. `R1`, `C3`, `U12`). Unique within a BOM.
    pub designator: String,
    /// Designer-assigned generic part identifier.
    pub part_id: String,
}

/// Metadata stored in every `.nextbom` working file: the PCB assembly the BOM describes,
/// its assembly variant and revision, where it was imported from and by whom.
#[derive(Debug, Clone)]
pub struct Metadata {
    /// Name of the PCB assembly this BOM describes.
    pub pcb_name: String,
    /// Assembly variant identifier, used to distinguish builds of the same board.
    pub design_variant: String,
    /// BOM revision number (e.g. `"1"`, `"2"`).
    pub bom_version: String,
    /// Absolute path to the CSV file that was imported to create this BOM.
    pub source_csv_path: String,
    /// Unix timestamp in milliseconds when the CSV was parsed.
    pub csv_imported_at: i64,
    /// Name of the engineer responsible for this BOM.
    pub engineer: String,
}

/// A BOM row with resolved manufacturer and MPN data.
///
/// `mfr`/`mpn` come from the main parts table and `alt_mfr`/`alt_mpn` from the
/// project-specific alternative table. Before resolution all four are empty.
#[derive(Debug, Clone)]
pub struct ResolvedBomEntry {
    pub designator: String,
    pub part_id: String,
    pub mfr: Vec<String>,
    pub mpn: Vec<String>,
    pub alt_mfr: Vec<String>,
    pub alt_mpn: Vec<String>,
}

/// A grouped BOM row ready for export: one row per `part_id`.
///
/// `designators` is sorted. `mfr` and `mpn` each hold the primary values followed by the
/// alternatives, one per line.
#[derive(Debug, Clone)]
pub struct ExcelBomRow {
    pub part_id: String,
    pub designators: Vec<String>,
    pub qty: usize,
    pub mfr: String,
    pub mpn: String,
}

/// The view of an optional string.
pub open spec fn opt_str(s: Option<&str>) -> Option<Seq<char>> {
    match s {
        Some(x) => Some(x@),
        None => None,
    }
}

/// The part identifiers of the entries, in order.
pub open spec fn part_ids(e: Seq<ResolvedBomEntry>) -> Seq<Seq<char>> {
    e.map_values(|x: ResolvedBomEntry| x.part_id@)
}

/// The designators of the entries whose part identifier is `key`, in input order.
pub open spec fn designators_for(e: Seq<ResolvedBomEntry>, key: Seq<char>) -> Seq<Seq<char>>
    decreases e.len(),
{
    if e.len() == 0 {
        Seq::empty()
    } else {
        let rest = designators_for(e.drop_last(), key);
        if e.last().part_id@ == key {
            rest.push(e.last().designator@)
        } else {
            rest
        }
    }
}

/// The position of the first occurrence of `key` in `ids` (the length when there is none).
pub open spec fn first_index_of(ids: Seq<Seq<char>>, key: Seq<char>) -> int
    decreases ids.len(),
{
    if ids.len() == 0 {
        0
    } else if ids[0] == key {
        0
    } else {
        1 + first_index_of(ids.drop_first(), key)
    }
}

/// The part identifier shown in the export: suffixed with `_` and the project-specifics
/// identifier when one is given and the part has alternatives.
pub open spec fn display_part_id(key: Seq<char>, specifics: Option<Seq<char>>, has_alt: bool) -> Seq<
    char,
> {
    if specifics is Some && has_alt {
        key + seq!['_'] + specifics->0
    } else {
        key
    }
}

/// `row` is the export row of part `key`: its designators are those of the entries with
/// that part identifier, sorted; its quantity is their number; its manufacturers and MPNs
/// are those of the first such entry, primary values first, one per line.
pub open spec fn excel_row_for(
    e: Seq<ResolvedBomEntry>,
    specifics: Option<Seq<char>>,
    key: Seq<char>,
    row: ExcelBomRow,
) -> bool {
    let first = e[first_index_of(part_ids(e), key)];
    &&& sorted_strs(strs(row.designators@))
    &&& strs(row.designators@).to_multiset() == designators_for(e, key).to_multiset()
    &&& row.qty == designators_for(e, key).len()
    &&& row.mfr@ == join(strs(first.mfr@) + strs(first.alt_mfr@), seq!['\n'])
    &&& row.mpn@ == join(strs(first.mpn@) + strs(first.alt_mpn@), seq!['\n'])
    &&& row.part_id@ == display_part_id(key, specifics, first.alt_mfr@.len() > 0)
}

/// `rows` are the export rows of the entries: one per distinct part identifier, in ascending
/// order of the identifiers `keys`.
pub open spec fn excel_grouping(
    e: Seq<ResolvedBomEntry>,
    specifics: Option<Seq<char>>,
    keys: Seq<Seq<char>>,
    rows: Seq<ExcelBomRow>,
) -> bool {
    &&& strictly_sorted_strs(keys)
    &&& keys.to_set() == part_ids(e).to_set()
    &&& rows.len() == keys.len()
    &&& forall|i: int| 0 <= i < rows.len() ==> excel_row_for(e, specifics, keys[i], #[trigger] rows[i])
}

proof fn lemma_first_index_of(ids: Seq<Seq<char>>, key: Seq<char>, j: int)
    requires
        0 <= j < ids.len(),
        ids[j] == key,
        forall|q: int| 0 <= q < j ==> ids[q] != key,
    ensures
        first_index_of(ids, key) == j,
    decreases j,
{
    if j > 0 {
        assert forall|q: int| 0 <= q < j - 1 implies ids.drop_first()[q] != key by {
            assert(ids.drop_first()[q] == ids[q + 1]);
        }
        lemma_first_index_of(ids.drop_first(), key, j - 1);
    }
}

/// The distinct part identifiers of the entries, in ascending order.
fn sorted_part_ids(entries: &[ResolvedBomEntry]) -> (keys: Vec<String>)
    ensures
        strictly_sorted_strs(strs(keys@)),
        strs(keys@).to_set() == part_ids(entries@).to_set(),
{
    let mut keys: Vec<String> = Vec::new();
    let mut i: usize = 0;
    assert(strs(keys@).to_set() =~= part_ids(entries@.take(0)).to_set());
    while i < entries.len()
        invariant
            i <= entries.len(),
            strictly_sorted_strs(strs(keys@)),
            strs(keys@).to_set() == part_ids(entries@.take(i as int)).to_set(),
        decreases entries.len() - i,
    {
        insert_sorted_unique(&mut keys, entries[i].part_id.clone());
        proof {
            assert(part_ids(entries@.take(i + 1)) =~= part_ids(entries@.take(i as int)).push(
                entries@[i as int].part_id@,
            ));
            part_ids(entries@.take(i as int)).lemma_push_to_set_commute(entries@[i as int].part_id@);
        }
        i += 1;
    }
    assert(entries@.take(entries.len() as int) =~= entries@);
    keys
}

/// The export row of part `key`.
fn excel_row(entries: &[ResolvedBomEntry], key: &String, project_specifics: Option<&str>) -> (row:
    ExcelBomRow)
    requires
        part_ids(entries@).contains(key@),
    ensures
        excel_row_for(entries@, opt_str(project_specifics), key@, row),
{
    let ghost ids = part_ids(entries@);
    let mut j: usize = 0;
    while j < entries.len() && !(entries[j].part_id == *key)
        invariant
            j <= entries.len(),
            ids == part_ids(entries@),
            ids.contains(key@),
            forall|q: int| 0 <= q < j ==> ids[q] != key@,
        decreases entries.len() - j,
    {
        j += 1;
    }
    assert(j < entries.len()) by {
        if j == entries.len() {
            let q = choose|q: int| 0 <= q < ids.len() && ids[q] == key@;
            assert(ids[q] != key@);
        }
    }
    proof {
        lemma_first_index_of(ids, key@, j as int);
    }
    let mut designators: Vec<String> = Vec::new();
    let mut i: usize = 0;
    assert(strs(designators@) =~= designators_for(entries@.take(0), key@));
    while i < entries.len()
        invariant
            i <= entries.len(),
            strs(designators@) == designators_for(entries@.take(i as int), key@),
        decreases entries.len() - i,
    {
        assert(entries@.take(i + 1).drop_last() =~= entries@.take(i as int));
        if entries[i].part_id == *key {
            designators.push(entries[i].designator.clone());
            assert(strs(designators@) =~= designators_for(entries@.take(i + 1), key@));
        }
        i += 1;
    }
    assert(entries@.take(entries.len() as int) =~= entries@);
    let first = &entries[j];
    let sorted = sort_strings(&designators);
    let all_mfr = concat_lists(&first.mfr, &first.alt_mfr);
    let all_mpn = concat_lists(&first.mpn, &first.alt_mpn);
    let newline = "\n";
    proof {
        reveal_strlit("\n");
        assert(newline@ =~= seq!['\n']);
    }
    let mfr = join_strs(&all_mfr, newline);
    let mpn = join_strs(&all_mpn, newline);
    let part_id = match project_specifics {
        Some(s) if first.alt_mfr.len() > 0 => {
            let underscore = "_";
            proof {
                reveal_strlit("_");
            }
            let with_sep = concat(key.as_str(), underscore);
            concat(with_sep.as_str(), s)
        },
        _ => key.clone(),
    };
    let row = ExcelBomRow { part_id, designators: sorted, qty: designators.len(), mfr, mpn };
    proof {
        let e = entries@;
        let f = e[first_index_of(part_ids(e), key@)];
        assert(sorted_strs(strs(row.designators@)));
        assert(strs(row.designators@).to_multiset() == designators_for(e, key@).to_multiset());
        assert(row.qty == designators_for(e, key@).len());
        assert(row.mfr@ == join(strs(f.mfr@) + strs(f.alt_mfr@), seq!['\n']));
        assert(row.mpn@ == join(strs(f.mpn@) + strs(f.alt_mpn@), seq!['\n']));
        assert(row.part_id@ == display_part_id(key@, opt_str(project_specifics), f.alt_mfr@.len() > 0));
    }
    row
}

/// Groups resolved BOM entries into one row per `part_id`, sorted by `part_id`.
///
/// Designators sharing the same `part_id` are collected and sorted. `mfr` and `mpn` come from
/// the first entry for each `part_id`; the alternative values follow the primary ones in the
/// same cell, one per line.
///
/// When `project_specifics` is `Some(s)` and a row has alternative entries, the output
/// `part_id` is suffixed with `_{s}` (e.g. `RES00100_2025`); the stored `part_id` is never
/// modified.
pub fn group_for_excel(entries: &[ResolvedBomEntry], project_specifics: Option<&str>) -> (rows:
    Vec<ExcelBomRow>)
    ensures
        exists|keys: Seq<Seq<char>>|
            excel_grouping(entries@, opt_str(project_specifics), keys, rows@),
{
    let keys = sorted_part_ids(entries);
    let mut rows: Vec<ExcelBomRow> = Vec::new();
    let mut k: usize = 0;
    while k < keys.len()
        invariant
            k <= keys.len(),
            rows.len() == k,
            strs(keys@).to_set() == part_ids(entries@).to_set(),
            forall|i: int|
                0 <= i < k ==> excel_row_for(
                    entries@,
                    opt_str(project_specifics),
                    strs(keys@)[i],
                    #[trigger] rows@[i],
                ),
        decreases keys.len() - k,
    {
        assert(strs(keys@).to_set().contains(keys@[k as int]@)) by {
            assert(strs(keys@)[k as int] == keys@[k as int]@);
        }
        let row = excel_row(entries, &keys[k], project_specifics);
        rows.push(row);
        k += 1;
    }
    assert(excel_grouping(entries@, opt_str(project_specifics), strs(keys@), rows@));
    rows
}

/// The sum of the quantities of the rows.
pub open spec fn qty_total(rows: Seq<ExcelBomRow>) -> int
    decreases rows.len(),
{
    if rows.len() == 0 {
        0
    } else {
        qty_total(rows.drop_last()) + rows.last().qty
    }
}

/// The number of designators of the entries with each of the keys, summed over the keys.
spec fn designator_total(e: Seq<ResolvedBomEntry>, keys: Seq<Seq<char>>) -> int
    decreases keys.len(),
{
    if keys.len() == 0 {
        0
    } else {
        designator_total(e, keys.drop_last()) + designators_for(e, keys.last()).len()
    }
}

/// How often `p` occurs among the keys.
spec fn occurrences(keys: Seq<Seq<char>>, p: Seq<char>) -> int
    decreases keys.len(),
{
    if keys.len() == 0 {
        0
    } else {
        occurrences(keys.drop_last(), p) + if keys.last() == p {
            1int
        } else {
            0int
        }
    }
}

proof fn lemma_designator_total_empty(keys: Seq<Seq<char>>)
    ensures
        designator_total(Seq::empty(), keys) == 0,
    decreases keys.len(),
{
    if keys.len() > 0 {
        lemma_designator_total_empty(keys.drop_last());
    }
}

proof fn lemma_designator_total_push(e: Seq<ResolvedBomEntry>, x: ResolvedBomEntry, keys: Seq<Seq<char>>)
    ensures
        designator_total(e.push(x), keys) == designator_total(e, keys) + occurrences(keys, x.part_id@),
    decreases keys.len(),
{
    assert(e.push(x).drop_last() =~= e);
    if keys.len() > 0 {
        lemma_designator_total_push(e, x, keys.drop_last());
    }
}

proof fn lemma_occurrences_distinct(keys: Seq<Seq<char>>, p: Seq<char>)
    requires
        forall|a: int, b: int| 0 <= a < b < keys.len() ==> keys[a] != keys[b],
    ensures
        occurrences(keys, p) == if keys.contains(p) {
            1int
        } else {
            0int
        },
    decreases keys.len(),
{
    if keys.len() > 0 {
        let init = keys.drop_last();
        lemma_occurrences_distinct(init, p);
        if keys.last() == p {
            assert(!init.contains(p)) by {
                if init.contains(p) {
                    let a = choose|a: int| 0 <= a < init.len() && init[a] == p;
                    assert(keys[a] == keys[keys.len() - 1]);
                }
            }
            assert(keys.contains(p)) by {
                assert(keys[keys.len() - 1] == p);
            }
        } else {
            assert(keys.contains(p) == init.contains(p)) by {
                if keys.contains(p) {
                    let a = choose|a: int| 0 <= a < keys.len() && keys[a] == p;
                    assert(init[a] == p);
                }
                if init.contains(p) {
                    let a = choose|a: int| 0 <= a < init.len() && init[a] == p;
                    assert(keys[a] == p);
                }
            }
        }
    }
}

/// Summed over distinct keys that cover every part identifier, each entry is counted once.
proof fn lemma_designator_total_covers(e: Seq<ResolvedBomEntry>, keys: Seq<Seq<char>>)
    requires
        forall|a: int, b: int| 0 <= a < b < keys.len() ==> keys[a] != keys[b],
        forall|i: int| 0 <= i < e.len() ==> keys.contains(#[trigger] e[i].part_id@),
    ensures
        designator_total(e, keys) == e.len(),
    decreases e.len(),
{
    if e.len() == 0 {
        assert(e =~= Seq::<ResolvedBomEntry>::empty());
        lemma_designator_total_empty(keys);
    } else {
        let init = e.drop_last();
        assert forall|i: int| 0 <= i < init.len() implies keys.contains(#[trigger] init[i].part_id@) by {
            assert(init[i] == e[i]);
        }
        lemma_designator_total_covers(init, keys);
        assert(init.push(e.last()) =~= e);
        lemma_designator_total_push(init, e.last(), keys);
        assert(keys.contains(e[e.len() - 1].part_id@));
        lemma_occurrences_distinct(keys, e.last().part_id@);
    }
}

proof fn lemma_qty_total_rows(e: Seq<ResolvedBomEntry>, specifics: Option<Seq<char>>, keys: Seq<Seq<char>>, rows: Seq<ExcelBomRow>, n: int)
    requires
        0 <= n <= rows.len(),
        rows.len() == keys.len(),
        forall|i: int| 0 <= i < rows.len() ==> excel_row_for(e, specifics, keys[i], #[trigger] rows[i]),
    ensures
        qty_total(rows.take(n)) == designator_total(e, keys.take(n)),
    decreases n,
{
    if n > 0 {
        lemma_qty_total_rows(e, specifics, keys, rows, n - 1);
        assert(rows.take(n).drop_last() =~= rows.take(n - 1));
        assert(keys.take(n).drop_last() =~= keys.take(n - 1));
        assert(excel_row_for(e, specifics, keys[n - 1], rows[n - 1]));
    }
}

/// Every entry is counted in exactly one exported row: the quantities of the rows add up to
/// the number of entries.
pub proof fn lemma_quantities_cover_entries(
    e: Seq<ResolvedBomEntry>,
    specifics: Option<Seq<char>>,
    keys: Seq<Seq<char>>,
    rows: Seq<ExcelBomRow>,
)
    requires
        excel_grouping(e, specifics, keys, rows),
    ensures
        qty_total(rows) == e.len(),
{
    assert forall|a: int, b: int| 0 <= a < b < keys.len() implies keys[a] != keys[b] by {
        assert(str_lt(keys[a], keys[b]));
        if keys[a] == keys[b] {
            lemma_str_lt_irreflexive(keys[a]);
        }
    }
    assert forall|i: int| 0 <= i < e.len() implies keys.contains(#[trigger] e[i].part_id@) by {
        assert(part_ids(e)[i] == e[i].part_id@);
        assert(part_ids(e).to_set().contains(e[i].part_id@));
        assert(keys.to_set().contains(e[i].part_id@));
    }
    lemma_designator_total_covers(e, keys);
    lemma_qty_total_rows(e, specifics, keys, rows, rows.len() as int);
    assert(rows.take(rows.len() as int) =~= rows);
    assert(keys.take(keys.len() as int) =~= keys);
}

/// What the `csv` crate reads from `data` as semicolon-delimited records after a header row,
/// with rows of any length allowed: each record's fields, or the text of the error met in
/// its place.
pub uninterp spec fn semicolon_csv_records(data: Seq<u8>) -> Seq<Result<Seq<Seq<char>>, Seq<char>>>;

/// The view of the records read from a component list.
pub open spec fn record_results_view(r: Seq<Result<Vec<String>, String>>) -> Seq<
    Result<Seq<Seq<char>>, Seq<char>>,
> {
    r.map_values(
        |x: Result<Vec<String>, String>|
            match x {
                Ok(fields) => Ok(strs(fields@)),
                Err(e) => Err(e@),
            },
    )
}

/// The records of a semicolon-delimited CSV text, read with
/// `csv::ReaderBuilder::new().delimiter(b';').has_headers(true).flexible(true)` and
/// `records()`: the header row is skipped, each following record gives its fields, or the
/// error text (`to_string`) in its place. The reading goes to the end of the input.
#[verifier::external_body]
fn read_csv_records(data: &[u8]) -> (r: Vec<Result<Vec<String>, String>>)
    ensures
        record_results_view(r@) == semicolon_csv_records(data@),
{
    let mut reader = csv::ReaderBuilder::new().delimiter(b';').has_headers(true).flexible(
        true,
    ).from_reader(data);
    reader.records().map(
        |rec| rec.map(|r| r.iter().map(|f| f.to_string()).collect()).map_err(|e| e.to_string()),
    ).collect()
}

/// The message for a record with fewer than two fields.
pub open spec fn columns_message() -> Seq<char> {
    "CSV must have at least 2 columns (part ID and designator)"@
}

/// The message for a record, numbered `row`, with an empty part ID or designator.
pub open spec fn empty_value_message(row: nat) -> Seq<char> {
    "Row "@ + crate::template::decimal_text(row) + " has an empty value; both part ID and designator are required"@
}

/// The BOM entries of the records from position `k` on, as (designator, part ID) pairs, or
/// the message for the first record that is unreadable, has fewer than two fields, or has an
/// empty part ID or designator once trimmed.
pub open spec fn entries_from_records(recs: Seq<Result<Seq<Seq<char>>, Seq<char>>>, k: int) -> Result<
    Seq<(Seq<char>, Seq<char>)>,
    Seq<char>,
>
    decreases recs.len() - k,
{
    if k >= recs.len() || k < 0 {
        Ok(Seq::empty())
    } else {
        match recs[k] {
            Err(e) => Err("Failed to parse CSV record: "@ + e),
            Ok(fields) => if fields.len() < 2 {
                Err(columns_message())
            } else if trim(fields[0]).len() == 0 || trim(fields[1]).len() == 0 {
                Err(empty_value_message((k + 1) as nat))
            } else {
                match entries_from_records(recs, k + 1) {
                    Ok(rest) => Ok(seq![(trim(fields[1]), trim(fields[0]))] + rest),
                    Err(m) => Err(m),
                }
            },
        }
    }
}

/// The (designator, part ID) pairs of the entries.
pub open spec fn entries_view(v: Seq<BomEntry>) -> Seq<(Seq<char>, Seq<char>)> {
    v.map_values(|e: BomEntry| (e.designator@, e.part_id@))
}

/// Parses a semicolon-delimited CSV text and returns the BOM entries.
///
/// The first row is a header and is skipped. Each data row must have at least two columns:
/// column 0 is the part ID and column 1 the designator, both trimmed of white space and both
/// required to be non-empty. Returns an empty list when there is only the header row.
pub fn parse_csv(data: &[u8]) -> (r: Result<Vec<BomEntry>, String>)
    ensures
        match entries_from_records(semicolon_csv_records(data@), 0) {
            Ok(es) => r matches Ok(v) && entries_view(v@) == es,
            Err(m) => r matches Err(e) && e@ == m,
        },
{
    let records = read_csv_records(data);
    entries_from_csv_records(records)
}

/// The BOM entries of the records read after the header row of a component list: each
/// record's fields or the text of the error met in its place. Fails with the message for
/// the first record that is unreadable, has fewer than two fields, or has an empty part ID
/// or designator once trimmed.
pub fn entries_from_csv_records(records: Vec<Result<Vec<String>, String>>) -> (r: Result<Vec<BomEntry>, String>)
    ensures
        match entries_from_records(record_results_view(records@), 0) {
            Ok(es) => r matches Ok(v) && entries_view(v@) == es,
            Err(m) => r matches Err(e) && e@ == m,
        },
{
    let ghost recs = record_results_view(records@);
    let mut entries: Vec<BomEntry> = Vec::new();
    let mut i: usize = 0;
    while i < records.len()
        invariant
            i <= records.len(),
            recs == record_results_view(records@),
            entries@.len() == i,
            entries_from_records(recs, 0) == match entries_from_records(recs, i as int) {
                Ok(rest) => Ok(entries_view(entries@) + rest),
                Err(m) => Err::<Seq<(Seq<char>, Seq<char>)>, Seq<char>>(m),
            },
        decreases records.len() - i,
    {
        match &records[i] {
            Err(e) => {
                assert(recs[i as int] == Err::<Seq<Seq<char>>, Seq<char>>(e@));
                return Err(concat("Failed to parse CSV record: ", e.as_str()));
            },
            Ok(fields) => {
                assert(recs[i as int] == Ok::<Seq<Seq<char>>, Seq<char>>(strs(fields@)));
                if fields.len() < 2 {
                    return Err(String::from_str("CSV must have at least 2 columns (part ID and designator)"));
                }
                let part_id = trim_str(fields[0].as_str());
                let designator = trim_str(fields[1].as_str());
                if part_id.as_str().unicode_len() == 0 || designator.as_str().unicode_len() == 0 {
                    let n = crate::template::decimal_string(entries.len() + 1);
                    let a = concat("Row ", n.as_str());
                    return Err(concat(a.as_str(), " has an empty value; both part ID and designator are required"));
                }
                let ghost before = entries_view(entries@);
                entries.push(BomEntry { designator, part_id });
                assert(entries_view(entries@) =~= before.push((trim(fields@[1]@), trim(fields@[0]@))));
                proof {
                    match entries_from_records(recs, i + 1) {
                        Ok(rest) => {
                            assert(before + (seq![(trim(fields@[1]@), trim(fields@[0]@))] + rest)
                                =~= entries_view(entries@) + rest);
                        },
                        Err(m) => {},
                    }
                }
            },
        }
        i += 1;
    }
    assert(entries_view(entries@) + Seq::<(Seq<char>, Seq<char>)>::empty() =~= entries_view(entries@));
    Ok(entries)
}

} // verus!

use nextbom::bom::ExcelBomRow;
use nextbom::template::{
    apply_template_cell, decimal_string, default_sheet_cells, find_template_keys, plan_bom_template,
    ScalarValues, TemplateCell,
};

fn values() -> ScalarValues {
    ScalarValues {
        pcb_name: "Board".into(),
        bom_version: "3".into(),
        design_variant: "lite".into(),
        engineer: "Jane".into(),
        creation_date: "2024-04-21".into(),
    }
}

fn row(part: &str, designators: &[&str]) -> ExcelBomRow {
    ExcelBomRow {
        part_id: part.into(),
        designators: designators.iter().map(|s| s.to_string()).collect(),
        qty: designators.len(),
        mfr: "TDK".into(),
        mpn: "C0402".into(),
    }
}

fn cell(row: u32, col: u32, value: &str) -> TemplateCell {
    TemplateCell { row, col, value: value.into() }
}

#[test]
fn template_keys_are_found_in_order() {
    assert_eq!(find_template_keys("?part_id and ?qty, ?? ?_x? end?"), vec!["?part_id", "?qty", "?_x"]);
    assert!(find_template_keys("no keys ? here").is_empty());
    assert_eq!(find_template_keys("é?mfré"), vec!["?mfr"]);
}

#[test]
fn scalar_and_column_keys_are_replaced() {
    let r = row("CAP", &["C1", "C2"]);
    let out = apply_template_cell("?no: ?part_id x?qty (?designators) ?pcb_name v?bom_version", Some((&r, 7)), &values());
    assert_eq!(out, "7: CAP x2 (C1; C2) Board v3");
    let cleared = apply_template_cell("?engineer ?mpn|?creation_date", None, &values());
    assert_eq!(cleared, "Jane |2024-04-21");
}

#[test]
fn decimal_text_of_numbers() {
    assert_eq!(decimal_string(0), "0");
    assert_eq!(decimal_string(9), "9");
    assert_eq!(decimal_string(10), "10");
    assert_eq!(decimal_string(1234567890), "1234567890");
}

#[test]
fn plan_repeats_template_row_per_bom_row() {
    let cells = vec![
        cell(1, 1, "BOM for ?pcb_name"),
        cell(1, 2, "static"),
        cell(3, 1, "?no"),
        cell(3, 2, "?mpn"),
        cell(3, 3, "x"),
        cell(5, 1, "by ?engineer"),
    ];
    let rows = vec![row("A", &["R1"]), row("B", &["R2", "R3"]), row("C", &["R4"])];
    let plan = plan_bom_template(&cells, "&L?design_variant", "", &rows, &values()).unwrap();
    assert_eq!(plan.template_row, 3);
    assert_eq!(plan.inserted_rows, 2);
    assert_eq!(plan.header, "&Llite");
    assert_eq!(plan.footer, "");
    let updates: Vec<(u32, u32, &str)> = plan.cell_updates.iter().map(|w| (w.col, w.row, w.value.as_str())).collect();
    assert_eq!(updates, vec![(1, 1, "BOM for Board"), (1, 5, "by Jane")]);
    assert_eq!(plan.row_writes.len(), 3);
    let second: Vec<(u32, u32, &str, bool)> = plan.row_writes[1].iter().map(|w| (w.col, w.row, w.value.as_str(), w.mpn_column)).collect();
    assert_eq!(second, vec![(1, 4, "2", false), (2, 4, "C0402", true), (3, 4, "x", false)]);
}

#[test]
fn plan_without_rows_clears_template_row() {
    let cells = vec![cell(2, 1, "?part_id"), cell(2, 2, "qty: ?qty")];
    let plan = plan_bom_template(&cells, "", "", &vec![], &values()).unwrap();
    assert_eq!(plan.inserted_rows, 0);
    assert_eq!(plan.row_writes.len(), 1);
    assert_eq!(plan.row_writes[0][0].value, "");
    assert_eq!(plan.row_writes[0][1].value, "qty: ");
}

#[test]
fn plan_rejects_unknown_key() {
    let cells = vec![cell(1, 1, "?part_id"), cell(2, 1, "?color")];
    let err = plan_bom_template(&cells, "", "", &vec![], &values()).err().unwrap();
    assert_eq!(err, "Unknown template key: ?color");
    let err = plan_bom_template(&vec![cell(1, 1, "?qty")], "", "?page", &vec![], &values()).err().unwrap();
    assert_eq!(err, "Unknown template key: ?page");
}

#[test]
fn plan_rejects_column_keys_in_two_rows() {
    let cells = vec![cell(4, 1, "?part_id"), cell(9, 1, "?qty")];
    let err = plan_bom_template(&cells, "", "", &vec![], &values()).err().unwrap();
    assert_eq!(err, "Column keys must all be in the same row (found in rows 4 and 9)");
}

#[test]
fn plan_requires_a_column_key() {
    let cells = vec![cell(1, 1, "?pcb_name")];
    let err = plan_bom_template(&cells, "", "", &vec![], &values()).err().unwrap();
    assert_eq!(err, "Template must contain at least one column key: ?no, ?part_id, ?designators, ?qty, ?mfr, ?mpn");
}

#[test]
fn default_sheet_layout() {
    let rows = vec![row("A", &["R1", "R2"])];
    let cells = default_sheet_cells(&rows);
    assert_eq!(cells.len(), 10);
    let header: Vec<&str> = cells[..5].iter().map(|c| c.text.as_str()).collect();
    assert_eq!(header, vec!["part_id", "designators", "qty", "mfr", "mpn"]);
    assert_eq!(cells[6].text, "R1; R2");
    assert_eq!(cells[7].number, Some(2));
    assert!(cells[7].left_align && cells[9].left_align && !cells[8].left_align);
    assert_eq!((cells[9].col, cells[9].row), (5, 2));
}

#[test]
fn plain_cells_keep_their_text() {
    let r = row("CAP", &["C1"]);
    assert_eq!(apply_template_cell("Bill of materials", Some((&r, 1)), &values()), "Bill of materials");
    assert_eq!(apply_template_cell("Bill of materials", None, &values()), "Bill of materials");
}

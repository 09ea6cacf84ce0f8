use nextbom::bom::{entries_from_csv_records, parse_csv};

#[test]
fn parse_csv_valid_entries() {
    let data = "part_id;designator\nCAP_100NF;C1\nRES_10K;R2\n";
    let entries = parse_csv(data.as_bytes()).expect("parse should succeed");
    assert_eq!(entries.len(), 2);
    assert_eq!(entries[0].part_id, "CAP_100NF");
    assert_eq!(entries[0].designator, "C1");
    assert_eq!(entries[1].part_id, "RES_10K");
    assert_eq!(entries[1].designator, "R2");
}

#[test]
fn parse_csv_trims_whitespace() {
    let data = "part_id;designator\n  CAP_100NF ;  C1  \n";
    let entries = parse_csv(data.as_bytes()).expect("parse should succeed");
    assert_eq!(entries[0].part_id, "CAP_100NF");
    assert_eq!(entries[0].designator, "C1");
}

#[test]
fn parse_csv_header_only_returns_empty() {
    let data = "part_id;designator\n";
    let entries = parse_csv(data.as_bytes()).expect("parse should succeed");
    assert!(entries.is_empty());
}

#[test]
fn parse_csv_too_few_columns_returns_error() {
    let data = "part_id;designator\nCAP_100NF\n";
    let result = parse_csv(data.as_bytes());
    assert!(result.is_err());
    assert!(result.unwrap_err().contains("at least 2 columns"));
}

#[test]
fn parse_csv_empty_part_id_returns_error() {
    let data = "part_id;designator\n;C1\n";
    let result = parse_csv(data.as_bytes());
    assert!(result.is_err());
    assert!(result.unwrap_err().contains("empty value"));
}

#[test]
fn parse_csv_empty_designator_returns_error() {
    let data = "part_id;designator\nCAP_100NF;\n";
    let result = parse_csv(data.as_bytes());
    assert!(result.is_err());
    assert!(result.unwrap_err().contains("empty value"));
}

#[test]
fn parse_csv_empty_value_names_the_row() {
    let data = "part_id;designator\nA;C1\nB;C2\n  ;C3\n";
    assert_eq!(
        parse_csv(data.as_bytes()).unwrap_err(),
        "Row 3 has an empty value; both part ID and designator are required"
    );
}

#[test]
fn parse_csv_extra_columns_are_ignored() {
    let data = "part_id;designator;note\nIC1;U1;x;y\n";
    let entries = parse_csv(data.as_bytes()).unwrap();
    assert_eq!(entries.len(), 1);
    assert_eq!(entries[0].part_id, "IC1");
    assert_eq!(entries[0].designator, "U1");
}

#[test]
fn parse_csv_first_bad_row_wins() {
    let data = "part_id;designator\nA\n;C2\n";
    assert_eq!(
        parse_csv(data.as_bytes()).unwrap_err(),
        "CSV must have at least 2 columns (part ID and designator)"
    );
}

#[test]
fn parse_csv_invalid_utf8_is_a_record_error() {
    let mut data = b"part_id;designator\n".to_vec();
    data.extend_from_slice(&[0xff, b';', b'C', b'1', b'\n']);
    let err = parse_csv(&data).unwrap_err();
    assert!(err.starts_with("Failed to parse CSV record: "));
}

#[test]
fn parse_csv_trims_unicode_space() {
    let data = "part_id;designator\n\u{3000}IC\u{a0};\tU7 \n";
    let entries = parse_csv(data.as_bytes()).unwrap();
    assert_eq!(entries[0].part_id, "IC");
    assert_eq!(entries[0].designator, "U7");
}

fn rec(fields: &[&str]) -> Result<Vec<String>, String> {
    Ok(fields.iter().map(|f| f.to_string()).collect())
}

#[test]
fn records_become_entries() {
    let v = entries_from_csv_records(vec![rec(&[" CAP ", "C1", "x"]), rec(&["RES", " R2\t"])]).unwrap();
    assert_eq!(v.len(), 2);
    assert_eq!(v[0].part_id, "CAP");
    assert_eq!(v[0].designator, "C1");
    assert_eq!(v[1].designator, "R2");
    assert!(entries_from_csv_records(Vec::new()).unwrap().is_empty());
}

#[test]
fn records_errors_in_order() {
    assert_eq!(
        entries_from_csv_records(vec![rec(&["CAP", "C1"]), Err("bad quote".to_string()), rec(&["X"])]).unwrap_err(),
        "Failed to parse CSV record: bad quote"
    );
    assert_eq!(
        entries_from_csv_records(vec![rec(&["X"]), Err("bad".to_string())]).unwrap_err(),
        "CSV must have at least 2 columns (part ID and designator)"
    );
    assert_eq!(
        entries_from_csv_records(vec![rec(&["A", "B"]), rec(&["A", "B"]), rec(&["  ", "C3"])]).unwrap_err(),
        "Row 3 has an empty value; both part ID and designator are required"
    );
}

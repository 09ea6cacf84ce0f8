use nextbom::bom::{group_for_excel, ResolvedBomEntry};

#[test]
fn group_for_excel_single_part_no_alts() {
    let entries = vec![ResolvedBomEntry {
        designator: "C1".into(),
        part_id: "CAP00100".into(),
        mfr: vec!["TDK".into()],
        mpn: vec!["C0402".into()],
        alt_mfr: vec![],
        alt_mpn: vec![],
    }];
    let rows = group_for_excel(&entries, None);
    assert_eq!(rows.len(), 1);
    assert_eq!(rows[0].part_id, "CAP00100");
    assert_eq!(rows[0].designators, vec!["C1"]);
    assert_eq!(rows[0].qty, 1);
    assert_eq!(rows[0].mfr, "TDK");
    assert_eq!(rows[0].mpn, "C0402");
}

#[test]
fn group_for_excel_multiple_designators_sorted() {
    let entries = vec![
        ResolvedBomEntry {
            designator: "C3".into(),
            part_id: "CAP00100".into(),
            mfr: vec!["TDK".into()],
            mpn: vec!["C0402".into()],
            alt_mfr: vec![],
            alt_mpn: vec![],
        },
        ResolvedBomEntry {
            designator: "C1".into(),
            part_id: "CAP00100".into(),
            mfr: vec!["TDK".into()],
            mpn: vec!["C0402".into()],
            alt_mfr: vec![],
            alt_mpn: vec![],
        },
    ];
    let rows = group_for_excel(&entries, None);
    assert_eq!(rows.len(), 1);
    assert_eq!(rows[0].designators, vec!["C1", "C3"]);
    assert_eq!(rows[0].qty, 2);
}

#[test]
fn group_for_excel_alts_appended_to_primary() {
    let entries = vec![ResolvedBomEntry {
        designator: "R1".into(),
        part_id: "RES00100".into(),
        mfr: vec!["Yageo".into()],
        mpn: vec!["RC0402".into()],
        alt_mfr: vec!["Vishay".into()],
        alt_mpn: vec!["CRCW0402".into()],
    }];
    let rows = group_for_excel(&entries, None);
    assert_eq!(rows[0].mfr, "Yageo\nVishay");
    assert_eq!(rows[0].mpn, "RC0402\nCRCW0402");
}

#[test]
fn group_for_excel_multiple_parts_alphabetical_order() {
    let entries = vec![
        ResolvedBomEntry {
            designator: "R1".into(),
            part_id: "RES00100".into(),
            mfr: vec![],
            mpn: vec![],
            alt_mfr: vec![],
            alt_mpn: vec![],
        },
        ResolvedBomEntry {
            designator: "C1".into(),
            part_id: "CAP00100".into(),
            mfr: vec![],
            mpn: vec![],
            alt_mfr: vec![],
            alt_mpn: vec![],
        },
    ];
    let rows = group_for_excel(&entries, None);
    assert_eq!(rows[0].part_id, "CAP00100");
    assert_eq!(rows[1].part_id, "RES00100");
}

#[test]
fn group_for_excel_empty_mfr_produces_empty_string() {
    let entries = vec![ResolvedBomEntry {
        designator: "U1".into(),
        part_id: "IC00001".into(),
        mfr: vec![],
        mpn: vec![],
        alt_mfr: vec![],
        alt_mpn: vec![],
    }];
    let rows = group_for_excel(&entries, None);
    assert_eq!(rows[0].mfr, "");
    assert_eq!(rows[0].mpn, "");
}

#[test]
fn group_for_excel_empty_input_returns_empty() {
    let rows = group_for_excel(&[], None);
    assert!(rows.is_empty());
}

#[test]
fn group_for_excel_suffixes_part_id_only_when_alt_present() {
    let entries = vec![
        ResolvedBomEntry {
            designator: "R1".into(),
            part_id: "RES00100".into(),
            mfr: vec!["Yageo".into()],
            mpn: vec!["RC0402".into()],
            alt_mfr: vec!["Vishay".into()],
            alt_mpn: vec!["CRCW0402".into()],
        },
        ResolvedBomEntry {
            designator: "C1".into(),
            part_id: "CAP00100".into(),
            mfr: vec!["TDK".into()],
            mpn: vec!["C0402".into()],
            alt_mfr: vec![],
            alt_mpn: vec![],
        },
    ];
    let rows = group_for_excel(&entries, Some("2025"));
    // CAP00100 (no alt) is unchanged; RES00100 (has alt) gets the suffix.
    assert_eq!(rows[0].part_id, "CAP00100");
    assert_eq!(rows[1].part_id, "RES00100_2025");
}

#[test]
fn group_for_excel_no_specifics_never_suffixes() {
    let entries = vec![ResolvedBomEntry {
        designator: "R1".into(),
        part_id: "RES00100".into(),
        mfr: vec!["Yageo".into()],
        mpn: vec!["RC0402".into()],
        alt_mfr: vec!["Vishay".into()],
        alt_mpn: vec!["CRCW0402".into()],
    }];
    let rows = group_for_excel(&entries, None);
    assert_eq!(rows[0].part_id, "RES00100");
}


fn entry(designator: &str, part_id: &str, mfr: &[&str], alt_mfr: &[&str]) -> ResolvedBomEntry {
    ResolvedBomEntry {
        designator: designator.into(),
        part_id: part_id.into(),
        mfr: mfr.iter().map(|s| s.to_string()).collect(),
        mpn: mfr.iter().map(|s| format!("{}-pn", s)).collect(),
        alt_mfr: alt_mfr.iter().map(|s| s.to_string()).collect(),
        alt_mpn: alt_mfr.iter().map(|s| format!("{}-pn", s)).collect(),
    }
}

#[test]
fn group_for_excel_takes_values_of_first_entry() {
    let entries = vec![
        entry("R2", "RES", &["A"], &[]),
        entry("R1", "RES", &["B"], &["C"]),
    ];
    let rows = group_for_excel(&entries, Some("x"));
    assert_eq!(rows.len(), 1);
    assert_eq!(rows[0].mfr, "A");
    assert_eq!(rows[0].mpn, "A-pn");
    assert_eq!(rows[0].part_id, "RES");
    assert_eq!(rows[0].designators, vec!["R1", "R2"]);
}

#[test]
fn group_for_excel_keeps_repeated_designators() {
    let entries = vec![
        entry("C2", "CAP", &[], &[]),
        entry("C10", "CAP", &[], &[]),
        entry("C2", "CAP", &[], &[]),
        entry("U1", "IC", &[], &[]),
    ];
    let rows = group_for_excel(&entries, None);
    assert_eq!(rows.len(), 2);
    assert_eq!(rows[0].part_id, "CAP");
    assert_eq!(rows[0].designators, vec!["C10", "C2", "C2"]);
    assert_eq!(rows[0].qty, 3);
    assert_eq!(rows[1].part_id, "IC");
}

#[test]
fn group_for_excel_orders_by_code_point() {
    let entries = vec![
        entry("1", "b", &[], &[]),
        entry("2", "B", &[], &[]),
        entry("3", "a", &[], &[]),
        entry("4", "Ä", &[], &[]),
    ];
    let rows = group_for_excel(&entries, None);
    let ids: Vec<&str> = rows.iter().map(|r| r.part_id.as_str()).collect();
    assert_eq!(ids, vec!["B", "a", "b", "Ä"]);
}

#[test]
fn group_for_excel_multi_line_cells() {
    let entries = vec![entry("R1", "RES", &["A", "B"], &["C"])];
    let rows = group_for_excel(&entries, Some("v2"));
    assert_eq!(rows[0].mfr, "A\nB\nC");
    assert_eq!(rows[0].mpn, "A-pn\nB-pn\nC-pn");
    assert_eq!(rows[0].part_id, "RES_v2");
}

#[test]
fn group_for_excel_quantities_add_up_to_entries() {
    let entries = vec![
        entry("C1", "CAP", &["TDK"], &[]),
        entry("R1", "RES", &["Yageo"], &["Vishay"]),
        entry("C2", "CAP", &["TDK"], &[]),
        entry("U1", "IC", &[], &[]),
        entry("R2", "RES", &["Yageo"], &["Vishay"]),
    ];
    let rows = group_for_excel(&entries, Some("2025"));
    assert_eq!(rows.iter().map(|r| r.qty).sum::<usize>(), entries.len());
    assert_eq!(rows.iter().map(|r| r.designators.len()).sum::<usize>(), entries.len());
}

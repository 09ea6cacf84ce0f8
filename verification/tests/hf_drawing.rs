use nextbom::hf_drawing::{entries_of, max_rid_of, patch_hf_entries, patch_types, read_zip_str};
use nextbom::hf_drawing::{restore_hf_drawing, rid_number_of, rid_pairs_of, ZipItem};
use nextbom::xml_text::parse_zip_rels;
use std::io::{Read, Write};

const VML_TYPE: &str = "http://schemas.openxmlformats.org/officeDocument/2006/relationships/vmlDrawing";
const IMAGE_TYPE: &str = "http://schemas.openxmlformats.org/officeDocument/2006/relationships/image";

fn zip_of(parts: &[(&str, &[u8])]) -> Vec<u8> {
    let mut buf = Vec::new();
    {
        let mut w = zip::ZipWriter::new(std::io::Cursor::new(&mut buf));
        for (name, bytes) in parts {
            w.start_file(*name, zip::write::SimpleFileOptions::default()).unwrap();
            w.write_all(bytes).unwrap();
        }
        w.finish().unwrap();
    }
    buf
}

fn part_of(archive: &[u8], name: &str) -> Option<Vec<u8>> {
    let mut zip = zip::ZipArchive::new(std::io::Cursor::new(archive)).unwrap();
    let mut file = zip.by_name(name).ok()?;
    let mut out = Vec::new();
    file.read_to_end(&mut out).unwrap();
    Some(out)
}

fn text_of(archive: &[u8], name: &str) -> String {
    String::from_utf8(part_of(archive, name).unwrap()).unwrap()
}

fn template_rels() -> String {
    format!(
        r#"<?xml version="1.0"?><Relationships xmlns="x"><Relationship Id="rId1" Type="{VML_TYPE}" Target="../drawings/vmlDrawing1.vml"/><Relationship Id="rId2" Type="other" Target="../printerSettings/p1.bin"/></Relationships>"#
    )
}

fn vml_rels() -> String {
    format!(r#"<Relationships xmlns="x"><Relationship Id="rId1" Type="{IMAGE_TYPE}" Target="../media/image1.png"/></Relationships>"#)
}

fn template_zip() -> Vec<u8> {
    let rels = template_rels();
    let media_rels = vml_rels();
    zip_of(&[
        ("xl/worksheets/_rels/sheet1.xml.rels", rels.as_bytes()),
        ("xl/worksheets/sheet1.xml", br#"<worksheet><sheetData/><legacyDrawingHF r:id="rId1"/></worksheet>"#),
        ("xl/drawings/vmlDrawing1.vml", b"<xml>vml</xml>"),
        ("xl/drawings/_rels/vmlDrawing1.vml.rels", media_rels.as_bytes()),
        ("xl/media/image1.png", &[137, 80, 78, 71]),
    ])
}

fn output_zip() -> Vec<u8> {
    zip_of(&[
        ("[Content_Types].xml", br#"<Types><Default Extension="png" ContentType="image/png"/></Types>"#),
        ("xl/worksheets/sheet1.xml", b"<worksheet><sheetData/></worksheet>"),
        (
            "xl/worksheets/_rels/sheet1.xml.rels",
            br#"<Relationships xmlns="x"><Relationship Id="rId1" Type="a" Target="b"/><Relationship Id="rId3" Type="c" Target="d"/></Relationships>"#,
        ),
    ])
}

#[test]
fn drawings_are_restored() {
    let patched = restore_hf_drawing(&template_zip(), &output_zip()).unwrap().unwrap();
    assert_eq!(
        text_of(&patched, "xl/worksheets/sheet1.xml"),
        r#"<worksheet><sheetData/><legacyDrawingHF r:id="rId4"/></worksheet>"#
    );
    assert_eq!(
        text_of(&patched, "xl/worksheets/_rels/sheet1.xml.rels"),
        format!(
            r#"<Relationships xmlns="x"><Relationship Id="rId1" Type="a" Target="b"/><Relationship Id="rId3" Type="c" Target="d"/><Relationship Id="rId4" Type="{VML_TYPE}" Target="../drawings/vmlDrawing1.vml"/></Relationships>"#
        )
    );
    assert_eq!(text_of(&patched, "xl/drawings/vmlDrawing1.vml"), "<xml>vml</xml>");
    assert_eq!(text_of(&patched, "xl/drawings/_rels/vmlDrawing1.vml.rels"), vml_rels());
    assert_eq!(part_of(&patched, "xl/media/image1.png").unwrap(), vec![137, 80, 78, 71]);
    assert!(part_of(&patched, "xl/printerSettings/p1.bin").is_none());
}

#[test]
fn content_types_gain_the_missing_defaults() {
    let patched = restore_hf_drawing(&template_zip(), &output_zip()).unwrap().unwrap();
    let ct = text_of(&patched, "[Content_Types].xml");
    assert_eq!(
        ct,
        [
            r#"<Types><Default Extension="png" ContentType="image/png"/>"#,
            r#"<Default Extension="vml" ContentType="application/vnd.openxmlformats-officedocument.vmlDrawing"/>"#,
            r#"<Default Extension="jpg" ContentType="image/jpeg"/>"#,
            r#"<Default Extension="jpeg" ContentType="image/jpeg"/>"#,
            r#"<Default Extension="gif" ContentType="image/gif"/>"#,
            r#"<Default Extension="tiff" ContentType="image/tiff"/>"#,
            r#"<Default Extension="emf" ContentType="image/x-emf"/>"#,
            "</Types>",
        ]
        .concat()
    );
    assert_eq!(patch_types(ct.clone()), ct);
}

#[test]
fn entries_come_out_in_name_order() {
    let entries = patch_hf_entries(&template_zip(), &output_zip()).unwrap().unwrap();
    let names: Vec<&str> = entries.iter().map(|e| e.0.as_str()).collect();
    assert_eq!(
        names,
        vec![
            "[Content_Types].xml",
            "xl/drawings/_rels/vmlDrawing1.vml.rels",
            "xl/drawings/vmlDrawing1.vml",
            "xl/media/image1.png",
            "xl/worksheets/_rels/sheet1.xml.rels",
            "xl/worksheets/sheet1.xml",
        ]
    );
}

#[test]
fn missing_relationships_part_is_created() {
    let output = zip_of(&[("xl/worksheets/sheet1.xml", b"<worksheet></worksheet>")]);
    let patched = restore_hf_drawing(&template_zip(), &output).unwrap().unwrap();
    assert_eq!(
        text_of(&patched, "xl/worksheets/_rels/sheet1.xml.rels"),
        format!(
            r#"<?xml version="1.0" encoding="UTF-8" standalone="yes"?><Relationships xmlns="http://schemas.openxmlformats.org/package/2006/relationships"><Relationship Id="rId1" Type="{VML_TYPE}" Target="../drawings/vmlDrawing1.vml"/></Relationships>"#
        )
    );
    assert_eq!(
        text_of(&patched, "xl/worksheets/sheet1.xml"),
        r#"<worksheet><legacyDrawingHF r:id="rId1"/></worksheet>"#
    );
    assert!(part_of(&patched, "[Content_Types].xml").is_none());
}

#[test]
fn template_without_drawing_relationship_needs_nothing() {
    let template = zip_of(&[
        ("xl/worksheets/_rels/sheet1.xml.rels", br#"<Relationships><Relationship Id="rId1" Type="other" Target="x"/></Relationships>"#),
        ("xl/worksheets/sheet1.xml", br#"<worksheet><legacyDrawingHF r:id="rId1"/></worksheet>"#),
    ]);
    assert_eq!(restore_hf_drawing(&template, &output_zip()), Ok(None));
}

#[test]
fn template_without_header_footer_element_needs_nothing() {
    let rels = template_rels();
    let template = zip_of(&[
        ("xl/worksheets/_rels/sheet1.xml.rels", rels.as_bytes()),
        ("xl/worksheets/sheet1.xml", b"<worksheet><sheetData/></worksheet>"),
    ]);
    assert_eq!(restore_hf_drawing(&template, &output_zip()), Ok(None));
}

#[test]
fn template_without_sheet_relationships_needs_nothing() {
    let template = zip_of(&[("xl/worksheets/sheet1.xml", b"<worksheet/>")]);
    assert_eq!(restore_hf_drawing(&template, &output_zip()), Ok(None));
}

#[test]
fn unreadable_template_fails() {
    assert!(restore_hf_drawing(b"not a zip archive", &output_zip()).is_err());
}

#[test]
fn unreadable_output_fails() {
    assert!(restore_hf_drawing(&template_zip(), b"not a zip archive").is_err());
}

#[test]
fn entry_text_is_read() {
    let z = zip_of(&[("a.txt", "héllo".as_bytes()), ("b.bin", &[0xff, 0xfe])]);
    assert_eq!(read_zip_str(&z, "a.txt"), Ok("héllo".to_string()));
    assert_eq!(read_zip_str(&z, "c.txt"), Err("not in zip: c.txt".to_string()));
    assert!(read_zip_str(&z, "b.bin").is_err());
}

#[test]
fn relationship_numbers() {
    assert_eq!(rid_number_of("rId12"), Some(12));
    assert_eq!(rid_number_of("rId+7"), Some(7));
    assert_eq!(rid_number_of("rIdx"), None);
    assert_eq!(rid_number_of("Id1"), None);
    assert_eq!(rid_number_of("rId"), None);
    let rels = parse_zip_rels(
        r#"<Relationship Id="rId2" Type="t" Target="a"/><Relationship Id="rId10" Type="t" Target="b"/><Relationship Id="x9" Type="t" Target="c"/>"#,
    );
    assert_eq!(max_rid_of(&rels), 10);
    assert_eq!(max_rid_of(&Vec::new()), 0);
}

#[test]
fn new_ids_follow_the_largest_one() {
    let rels = parse_zip_rels(
        r#"<Relationship Id="rId1" Type="t" Target="a"/><Relationship Id="rId5" Type="t" Target="b"/><Relationship Id="rId1" Type="t" Target="c"/>"#,
    );
    let pairs = rid_pairs_of(&rels, 7);
    assert_eq!(
        pairs,
        vec![("rId1".to_string(), "rId10".to_string()), ("rId5".to_string(), "rId9".to_string())]
    );
}

#[test]
fn listing_keeps_the_last_file_of_a_name() {
    let items = vec![
        ZipItem { name: "b".to_string(), is_dir: false, bytes: vec![1] },
        ZipItem { name: "a/".to_string(), is_dir: true, bytes: vec![] },
        ZipItem { name: "a".to_string(), is_dir: false, bytes: vec![2] },
        ZipItem { name: "b".to_string(), is_dir: false, bytes: vec![3] },
    ];
    assert_eq!(entries_of(items), vec![("a".to_string(), vec![2]), ("b".to_string(), vec![3])]);
}

use nextbom::xml_text::{make_rels_path, parent_dir, resolve_zip_rel};
use nextbom::xml_text::{extract_legacy_drawing_hf, parse_zip_rels, xml_attr};

#[test]
fn attributes_are_read() {
    assert_eq!(xml_attr(r#"<a Id="rId3" Type="t"/>"#, "Id"), "rId3");
    assert_eq!(xml_attr(r#"<a Id="rId3"/>"#, "Target"), "");
    assert_eq!(xml_attr(r#"<a Id="open"#, "Id"), "");
}

#[test]
fn relationships_are_parsed() {
    let xml = r#"<?xml version="1.0"?><Relationships xmlns="x"><Relationship Id="rId1" Type="http://a/vmlDrawing" Target="../drawings/vmlDrawing1.vml"/><Relationship Id="rId2" Type="t2" Target="b"></Relationship><Relationship Target="c"/></Relationships>"#;
    let rels = parse_zip_rels(xml);
    assert_eq!(rels.len(), 2);
    assert_eq!(rels[0].id, "rId1");
    assert_eq!(rels[0].rel_type, "http://a/vmlDrawing");
    assert_eq!(rels[0].target, "../drawings/vmlDrawing1.vml");
    assert_eq!(rels[1].id, "rId2");
}

#[test]
fn legacy_drawing_elements_are_extracted() {
    let xml = r#"<worksheet><legacyDrawingHF r:id="rId1"/><x/><legacyDrawingHF r:id="rId2"/></worksheet>"#;
    assert_eq!(
        extract_legacy_drawing_hf(xml),
        vec![r#"<legacyDrawingHF r:id="rId1"/>"#, r#"<legacyDrawingHF r:id="rId2"/>"#]
    );
}

#[test]
fn package_paths() {
    assert_eq!(resolve_zip_rel("xl/worksheets/", "../drawings/vmlDrawing1.vml"), "xl/drawings/vmlDrawing1.vml");
    assert_eq!(resolve_zip_rel("xl/drawings/", "../media/image1.png"), "xl/media/image1.png");
    assert_eq!(resolve_zip_rel("", "a/b"), "/a/b");
    assert_eq!(make_rels_path("xl/drawings/vmlDrawing1.vml"), "xl/drawings/_rels/vmlDrawing1.vml.rels");
    assert_eq!(make_rels_path("top.xml"), "_rels/top.xml.rels");
    assert_eq!(parent_dir("xl/drawings/vmlDrawing1.vml"), "xl/drawings/");
    assert_eq!(parent_dir("top.xml"), "");
}

use road_drawing::dxf::DxfLine;
use road_drawing::dxf_reader::{parse_dxf, DxfDocument, ReaderError};
use road_drawing::number::NumText;

/// The value of a number literal held by an entity.
fn num(n: &NumText) -> f64 {
    n.as_str().parse().unwrap()
}

#[test]
fn test_parse_empty_entities_section() {
    // Minimal DXF with empty ENTITIES
    let dxf = "0\nSECTION\n2\nENTITIES\n0\nENDSEC\n0\nEOF\n";
    let doc = parse_dxf(dxf).unwrap();
    assert!(doc.lines.is_empty());
    assert!(doc.texts.is_empty());
}

#[test]
fn test_parse_no_entities_section() {
    let dxf = "0\nSECTION\n2\nHEADER\n0\nENDSEC\n0\nEOF\n";
    let result = parse_dxf(dxf);
    assert!(result.is_err());
}

#[test]
fn test_parse_completely_empty() {
    let result = parse_dxf("");
    assert!(result.is_err());
}

#[test]
fn test_parse_garbage_input() {
    let result = parse_dxf("this is not a dxf file at all");
    assert!(result.is_err());
}

#[test]
fn test_parse_header_only() {
    let dxf = "0\nSECTION\n2\nHEADER\n9\n$ACADVER\n1\nAC1015\n0\nENDSEC\n0\nEOF\n";
    let result = parse_dxf(dxf);
    assert!(result.is_err()); // No ENTITIES section
}

#[test]
fn test_parse_entities_with_unknown_entity_type() {
    let dxf = "0\nSECTION\n2\nENTITIES\n0\nSPLINE\n5\n100\n0\nENDSEC\n0\nEOF\n";
    let doc = parse_dxf(dxf).unwrap();
    // Unknown entity type should be skipped
    assert!(doc.lines.is_empty());
    assert!(doc.texts.is_empty());
}

#[test]
fn test_parse_line_missing_end_coords() {
    // LINE with only start coords, no end coords
    let dxf = "0\nSECTION\n2\nENTITIES\n0\nLINE\n8\n0\n10\n5.0\n20\n10.0\n0\nENDSEC\n0\nEOF\n";
    let doc = parse_dxf(dxf).unwrap();
    assert_eq!(doc.lines.len(), 1);
    assert!((num(&doc.lines[0].x1) - 5.0).abs() < 0.001);
    // End coords default to 0
    assert!((num(&doc.lines[0].x2) - 0.0).abs() < 0.001);
}

#[test]
fn test_parse_text_minimal() {
    let dxf = "0\nSECTION\n2\nENTITIES\n0\nTEXT\n1\nHello\n0\nENDSEC\n0\nEOF\n";
    let doc = parse_dxf(dxf).unwrap();
    assert_eq!(doc.texts.len(), 1);
    assert_eq!(doc.texts[0].text, "Hello");
}

#[test]
fn test_parse_handles_extra_whitespace() {
    let dxf = "  0  \n  SECTION  \n  2  \n  ENTITIES  \n  0  \n  ENDSEC  \n  0  \n  EOF  \n";
    let doc = parse_dxf(dxf).unwrap();
    assert!(doc.lines.is_empty());
}

#[test]
fn test_reader_error_display() {
    let err = ReaderError::NoEntitiesSection;
    assert_eq!(err.message(), "No ENTITIES section found");

    let err2 = ReaderError::MalformedGroupCode("ABC".to_string());
    assert_eq!(err2.message(), "Malformed group code: ABC");
}

#[test]
fn test_parse_mixed_with_unknown_entities() {
    let dxf = "\
0\nSECTION\n2\nENTITIES\n\
0\nLINE\n8\n0\n10\n1\n20\n2\n11\n3\n21\n4\n\
0\nSPLINE\n8\n0\n\
0\nTEXT\n8\n0\n10\n5\n20\n6\n1\nHello\n\
0\nENDSEC\n0\nEOF\n";
    let doc = parse_dxf(dxf).unwrap();
    assert_eq!(doc.lines.len(), 1);
    assert_eq!(doc.texts.len(), 1);
    assert_eq!(doc.texts[0].text, "Hello");
}

#[test]
fn test_parse_empty_string_returns_error() {
    // Completely empty input — no ENTITIES section possible
    assert!(parse_dxf("").is_err());
}

#[test]
fn test_parse_newlines_only() {
    assert!(parse_dxf("\n\n\n\n").is_err());
}

#[test]
fn test_parse_whitespace_only() {
    assert!(parse_dxf("   \n   \n   \n   \n").is_err());
}

#[test]
fn test_parse_header_and_tables_no_entities() {
    let dxf = "\
0\nSECTION\n2\nHEADER\n\
9\n$ACADVER\n1\nAC1015\n\
9\n$INSUNITS\n70\n4\n\
0\nENDSEC\n\
0\nSECTION\n2\nTABLES\n0\nENDSEC\n\
0\nEOF\n";
    let result = parse_dxf(dxf);
    assert!(result.is_err());
}

#[test]
fn test_parse_header_with_all_variables_no_entities() {
    let dxf = "\
0\nSECTION\n2\nHEADER\n\
9\n$ACADVER\n1\nAC1015\n\
9\n$INSUNITS\n70\n4\n\
9\n$EXTMIN\n10\n0.0\n20\n0.0\n30\n0.0\n\
9\n$EXTMAX\n10\n100.0\n20\n100.0\n30\n0.0\n\
0\nENDSEC\n\
0\nEOF\n";
    assert!(parse_dxf(dxf).is_err());
}

#[test]
fn test_parse_line_with_non_numeric_coords() {
    // Group code 10 has non-numeric value — should fall back to 0.0
    let dxf = "0\nSECTION\n2\nENTITIES\n\
0\nLINE\n8\n0\n10\nABC\n20\n2.0\n11\n3.0\n21\n4.0\n\
0\nENDSEC\n0\nEOF\n";
    let doc = parse_dxf(dxf).unwrap();
    assert_eq!(doc.lines.len(), 1);
    assert!((num(&doc.lines[0].x1) - 0.0).abs() < 0.001); // fallback
    assert!((num(&doc.lines[0].y1) - 2.0).abs() < 0.001);
}

#[test]
fn test_parse_text_with_non_numeric_height() {
    let dxf = "0\nSECTION\n2\nENTITIES\n\
0\nTEXT\n1\nHello\n40\nBAD\n\
0\nENDSEC\n0\nEOF\n";
    let doc = parse_dxf(dxf).unwrap();
    assert_eq!(num(&doc.texts[0].height), 1.0); // fallback to default
}

#[test]
fn test_parse_circle_with_non_numeric_radius() {
    let dxf = "0\nSECTION\n2\nENTITIES\n\
0\nCIRCLE\n10\n5.0\n20\n5.0\n40\nXYZ\n\
0\nENDSEC\n0\nEOF\n";
    let doc = parse_dxf(dxf).unwrap();
    assert_eq!(doc.circles.len(), 1);
    assert!((num(&doc.circles[0].radius) - 1.0).abs() < 0.001); // fallback
}

#[test]
fn test_parse_line_entity_with_no_attributes() {
    // LINE marker immediately followed by ENDSEC — empty entity
    let dxf = "0\nSECTION\n2\nENTITIES\n0\nLINE\n0\nENDSEC\n0\nEOF\n";
    let doc = parse_dxf(dxf).unwrap();
    assert_eq!(doc.lines.len(), 1);
    // All coords should be 0 (default)
    assert!((num(&doc.lines[0].x1)).abs() < 0.001);
    assert!((num(&doc.lines[0].y1)).abs() < 0.001);
    assert!((num(&doc.lines[0].x2)).abs() < 0.001);
    assert!((num(&doc.lines[0].y2)).abs() < 0.001);
    assert_eq!(doc.lines[0].color, 7); // default
    assert_eq!(doc.lines[0].layer, "0"); // default
}

#[test]
fn test_parse_text_entity_with_no_attributes() {
    let dxf = "0\nSECTION\n2\nENTITIES\n0\nTEXT\n0\nENDSEC\n0\nEOF\n";
    let doc = parse_dxf(dxf).unwrap();
    assert_eq!(doc.texts.len(), 1);
    assert_eq!(doc.texts[0].text, "");
    assert_eq!(num(&doc.texts[0].height), 1.0);
}

#[test]
fn test_parse_circle_entity_with_no_attributes() {
    let dxf = "0\nSECTION\n2\nENTITIES\n0\nCIRCLE\n0\nENDSEC\n0\nEOF\n";
    let doc = parse_dxf(dxf).unwrap();
    assert_eq!(doc.circles.len(), 1);
    assert!((num(&doc.circles[0].radius) - 1.0).abs() < 0.001); // default
}

#[test]
fn test_parse_lwpolyline_entity_with_no_vertices() {
    let dxf = "0\nSECTION\n2\nENTITIES\n0\nLWPOLYLINE\n90\n0\n70\n0\n0\nENDSEC\n0\nEOF\n";
    let doc = parse_dxf(dxf).unwrap();
    assert_eq!(doc.polylines.len(), 1);
    assert!(doc.polylines[0].vertices.is_empty());
}

#[test]
fn test_parse_entities_section_without_endsec() {
    // ENTITIES section that runs until EOF without ENDSEC
    let dxf = "0\nSECTION\n2\nENTITIES\n\
0\nLINE\n10\n1.0\n20\n2.0\n11\n3.0\n21\n4.0\n\
0\nEOF\n";
    let doc = parse_dxf(dxf).unwrap();
    // LINE should still be parsed (loop breaks on EOF entity type)
    assert_eq!(doc.lines.len(), 1);
}

#[test]
fn test_parse_truncated_dxf_after_entity_marker() {
    // File ends right after entity type marker with no attributes
    let dxf = "0\nSECTION\n2\nENTITIES\n0\nLINE\n";
    let doc = parse_dxf(dxf).unwrap();
    assert_eq!(doc.lines.len(), 1); // empty entity with defaults
}

#[test]
fn test_parse_line_with_extra_unknown_group_codes() {
    // LINE with extra group codes that should be ignored
    let dxf = "0\nSECTION\n2\nENTITIES\n\
0\nLINE\n\
5\nABCD\n\
330\n1F\n\
100\nAcDbEntity\n\
8\nMyLayer\n\
62\n3\n\
100\nAcDbLine\n\
10\n10.0\n20\n20.0\n30\n0.0\n\
11\n30.0\n21\n40.0\n31\n0.0\n\
999\nComment line\n\
0\nENDSEC\n0\nEOF\n";
    let doc = parse_dxf(dxf).unwrap();
    assert_eq!(doc.lines.len(), 1);
    assert_eq!(doc.lines[0].layer, "MyLayer");
    assert_eq!(doc.lines[0].color, 3);
    assert!((num(&doc.lines[0].x1) - 10.0).abs() < 0.001);
}

#[test]
fn test_parse_multiple_entity_types_interleaved() {
    let dxf = "0\nSECTION\n2\nENTITIES\n\
0\nLINE\n10\n0.0\n20\n0.0\n11\n1.0\n21\n1.0\n\
0\nCIRCLE\n10\n5.0\n20\n5.0\n40\n3.0\n\
0\nTEXT\n10\n10.0\n20\n10.0\n1\nLabel\n\
0\nLWPOLYLINE\n90\n2\n70\n1\n10\n0.0\n20\n0.0\n10\n10.0\n20\n10.0\n\
0\nLINE\n10\n100.0\n20\n100.0\n11\n200.0\n21\n200.0\n\
0\nENDSEC\n0\nEOF\n";
    let doc = parse_dxf(dxf).unwrap();
    assert_eq!(doc.lines.len(), 2);
    assert_eq!(doc.circles.len(), 1);
    assert_eq!(doc.texts.len(), 1);
    assert_eq!(doc.polylines.len(), 1);
    assert!(doc.polylines[0].closed);
}

#[test]
fn test_parse_text_with_special_characters() {
    let dxf = "0\nSECTION\n2\nENTITIES\n\
0\nTEXT\n1\nNo.1+5 (左側)\n\
0\nENDSEC\n0\nEOF\n";
    let doc = parse_dxf(dxf).unwrap();
    assert_eq!(doc.texts[0].text, "No.1+5 (左側)");
}

#[test]
fn test_parse_line_with_scientific_notation_coords() {
    let dxf = "0\nSECTION\n2\nENTITIES\n\
0\nLINE\n10\n1.5e3\n20\n2.5e3\n11\n3.5e3\n21\n4.5e3\n\
0\nENDSEC\n0\nEOF\n";
    let doc = parse_dxf(dxf).unwrap();
    assert!((num(&doc.lines[0].x1) - 1500.0).abs() < 0.001);
    assert!((num(&doc.lines[0].y1) - 2500.0).abs() < 0.001);
}

#[test]
fn test_parse_entities_section_appears_after_other_sections() {
    let dxf = "\
0\nSECTION\n2\nHEADER\n9\n$ACADVER\n1\nAC1015\n0\nENDSEC\n\
0\nSECTION\n2\nTABLES\n0\nENDSEC\n\
0\nSECTION\n2\nBLOCKS\n0\nENDSEC\n\
0\nSECTION\n2\nENTITIES\n\
0\nLINE\n10\n1.0\n20\n2.0\n11\n3.0\n21\n4.0\n\
0\nENDSEC\n0\nEOF\n";
    let doc = parse_dxf(dxf).unwrap();
    assert_eq!(doc.lines.len(), 1);
}

#[test]
fn test_parse_lwpolyline_open_with_vertices() {
    let dxf = "0\nSECTION\n2\nENTITIES\n\
0\nLWPOLYLINE\n90\n4\n70\n0\n43\n0.0\n\
10\n0.0\n20\n0.0\n\
10\n100.0\n20\n0.0\n\
10\n100.0\n20\n100.0\n\
10\n0.0\n20\n100.0\n\
0\nENDSEC\n0\nEOF\n";
    let doc = parse_dxf(dxf).unwrap();
    assert_eq!(doc.polylines.len(), 1);
    assert_eq!(doc.polylines[0].vertices.len(), 4);
    assert!(!doc.polylines[0].closed);
    assert!((num(&doc.polylines[0].vertices[0].0) - 0.0).abs() < 0.001);
    assert!((num(&doc.polylines[0].vertices[1].0) - 100.0).abs() < 0.001);
    assert!((num(&doc.polylines[0].vertices[2].1) - 100.0).abs() < 0.001);
    assert!((num(&doc.polylines[0].vertices[3].0) - 0.0).abs() < 0.001);
}

#[test]
fn test_parse_lwpolyline_closed_flag() {
    let dxf = "0\nSECTION\n2\nENTITIES\n\
0\nLWPOLYLINE\n90\n3\n70\n1\n\
10\n0.0\n20\n0.0\n\
10\n10.0\n20\n0.0\n\
10\n5.0\n20\n8.66\n\
0\nENDSEC\n0\nEOF\n";
    let doc = parse_dxf(dxf).unwrap();
    assert!(doc.polylines[0].closed);
    assert_eq!(doc.polylines[0].vertices.len(), 3);
}

#[test]
fn test_parse_lwpolyline_with_layer_and_color() {
    let dxf = "0\nSECTION\n2\nENTITIES\n\
0\nLWPOLYLINE\n8\n外枠\n62\n3\n90\n2\n70\n0\n\
10\n0.0\n20\n0.0\n\
10\n50.0\n20\n50.0\n\
0\nENDSEC\n0\nEOF\n";
    let doc = parse_dxf(dxf).unwrap();
    assert_eq!(doc.polylines[0].layer, "外枠");
    assert_eq!(doc.polylines[0].color, 3);
    assert_eq!(doc.polylines[0].vertices.len(), 2);
}

#[test]
fn test_parse_lwpolyline_single_vertex() {
    let dxf = "0\nSECTION\n2\nENTITIES\n\
0\nLWPOLYLINE\n90\n1\n70\n0\n\
10\n42.0\n20\n99.0\n\
0\nENDSEC\n0\nEOF\n";
    let doc = parse_dxf(dxf).unwrap();
    assert_eq!(doc.polylines[0].vertices.len(), 1);
    assert!((num(&doc.polylines[0].vertices[0].0) - 42.0).abs() < 0.001);
    assert!((num(&doc.polylines[0].vertices[0].1) - 99.0).abs() < 0.001);
}

#[test]
fn test_parse_lwpolyline_negative_coords() {
    let dxf = "0\nSECTION\n2\nENTITIES\n\
0\nLWPOLYLINE\n90\n2\n70\n0\n\
10\n-500.0\n20\n-1000.0\n\
10\n500.0\n20\n1000.0\n\
0\nENDSEC\n0\nEOF\n";
    let doc = parse_dxf(dxf).unwrap();
    assert!((num(&doc.polylines[0].vertices[0].0) - (-500.0)).abs() < 0.001);
    assert!((num(&doc.polylines[0].vertices[1].1) - 1000.0).abs() < 0.001);
}

#[test]
fn test_parse_multiple_lwpolylines() {
    let dxf = "0\nSECTION\n2\nENTITIES\n\
0\nLWPOLYLINE\n90\n2\n70\n0\n10\n0.0\n20\n0.0\n10\n10.0\n20\n10.0\n\
0\nLWPOLYLINE\n90\n3\n70\n1\n10\n20.0\n20\n20.0\n10\n30.0\n20\n20.0\n10\n25.0\n20\n30.0\n\
0\nENDSEC\n0\nEOF\n";
    let doc = parse_dxf(dxf).unwrap();
    assert_eq!(doc.polylines.len(), 2);
    assert!(!doc.polylines[0].closed);
    assert!(doc.polylines[1].closed);
    assert_eq!(doc.polylines[0].vertices.len(), 2);
    assert_eq!(doc.polylines[1].vertices.len(), 3);
}

#[test]
fn test_parse_document_default() {
    let doc = DxfDocument::default();
    assert!(doc.lines.is_empty());
    assert!(doc.texts.is_empty());
    assert!(doc.circles.is_empty());
    assert!(doc.polylines.is_empty());
}

#[test]
fn test_parse_document_clone() {
    let mut doc = DxfDocument::default();
    let n = |s: &str| NumText::parse(s).unwrap();
    doc.lines.push(DxfLine::new(n("1.0"), n("2.0"), n("3.0"), n("4.0")));
    let cloned = doc.clone();
    assert_eq!(cloned.lines.len(), 1);
}

#[test]
fn test_parse_line_last_pair_wins() {
    let dxf = "0\nSECTION\n2\nENTITIES\n0\nLINE\n8\nA\n10\n1\n62\nx\n8\nB\n10\n2\n20\n3\n0\nENDSEC\n0\nEOF\n";
    let doc = parse_dxf(dxf).unwrap();
    assert_eq!(doc.lines.len(), 1);
    let l = &doc.lines[0];
    assert_eq!(l.layer, "B");
    assert_eq!(l.color, 7);
    assert_eq!(num(&l.x1), 2.0);
    assert_eq!(num(&l.y1), 3.0);
    assert_eq!(num(&l.x2), 0.0);
    assert_eq!(num(&l.y2), 0.0);
}

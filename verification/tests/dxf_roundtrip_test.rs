use road_drawing::dxf::{
    DxfCircle, DxfLine, DxfLwPolyline, DxfText, HorizontalAlignment, VerticalAlignment,
};
use road_drawing::dxf_reader::parse_dxf;
use road_drawing::dxf_writer::DxfWriter;
use road_drawing::number::NumText;

/// The value of a number literal.
fn num(n: &NumText) -> f64 {
    n.as_str().parse().unwrap()
}

/// The literal of a number.
fn f(v: f64) -> NumText {
    NumText::parse(&v.to_string()).unwrap()
}

#[test]
fn test_roundtrip_single_line() {
    let lines = vec![DxfLine::new(f(1.0), f(2.0), f(3.0), f(4.0))];
    let writer = DxfWriter::new();
    let dxf_text = writer.write(&lines, &[]);

    let doc = parse_dxf(&dxf_text).unwrap();
    assert_eq!(doc.lines.len(), 1);
    assert!((num(&doc.lines[0].x1) - 1.0).abs() < 0.001);
    assert!((num(&doc.lines[0].y1) - 2.0).abs() < 0.001);
    assert!((num(&doc.lines[0].x2) - 3.0).abs() < 0.001);
    assert!((num(&doc.lines[0].y2) - 4.0).abs() < 0.001);
}

#[test]
fn test_roundtrip_line_with_style() {
    let lines = vec![DxfLine::with_style(f(10.0), f(20.0), f(30.0), f(40.0), 5, "道路中心")];
    let writer = DxfWriter::new();
    let dxf_text = writer.write(&lines, &[]);

    let doc = parse_dxf(&dxf_text).unwrap();
    assert_eq!(doc.lines.len(), 1);
    assert_eq!(doc.lines[0].color, 5);
    assert_eq!(doc.lines[0].layer, "道路中心");
}

#[test]
fn test_roundtrip_multiple_lines() {
    let lines = vec![
        DxfLine::new(f(0.0), f(0.0), f(10.0), f(10.0)),
        DxfLine::new(f(10.0), f(10.0), f(20.0), f(20.0)),
        DxfLine::new(f(20.0), f(20.0), f(30.0), f(30.0)),
    ];
    let writer = DxfWriter::new();
    let dxf_text = writer.write(&lines, &[]);

    let doc = parse_dxf(&dxf_text).unwrap();
    assert_eq!(doc.lines.len(), 3);
}

#[test]
fn test_roundtrip_single_text() {
    let texts = vec![DxfText::new(f(50.0), f(60.0), "No.0")];
    let writer = DxfWriter::new();
    let dxf_text = writer.write(&[], &texts);

    let doc = parse_dxf(&dxf_text).unwrap();
    assert_eq!(doc.texts.len(), 1);
    assert!((num(&doc.texts[0].x) - 50.0).abs() < 0.001);
    assert!((num(&doc.texts[0].y) - 60.0).abs() < 0.001);
    assert_eq!(doc.texts[0].text, "No.0");
}

#[test]
fn test_roundtrip_text_with_height_rotation() {
    let texts = vec![
        DxfText::new(f(100.0), f(200.0), "測点名")
            .height(f(350.0))
            .rotation(f(-90.0))
            .color(5)
    ];
    let writer = DxfWriter::new();
    let dxf_text = writer.write(&[], &texts);

    let doc = parse_dxf(&dxf_text).unwrap();
    assert_eq!(doc.texts.len(), 1);
    assert!((num(&doc.texts[0].height) - 350.0).abs() < 0.001);
    assert!((num(&doc.texts[0].rotation) - (-90.0)).abs() < 0.001);
    assert_eq!(doc.texts[0].color, 5);
}

#[test]
fn test_roundtrip_mixed_entities() {
    let lines = vec![
        DxfLine::new(f(0.0), f(0.0), f(100.0), f(0.0)),
        DxfLine::new(f(0.0), f(0.0), f(0.0), f(100.0)),
    ];
    let texts = vec![
        DxfText::new(f(50.0), f(50.0), "Center"),
        DxfText::new(f(0.0), f(0.0), "Origin"),
    ];
    let writer = DxfWriter::new();
    let dxf_text = writer.write(&lines, &texts);

    let doc = parse_dxf(&dxf_text).unwrap();
    assert_eq!(doc.lines.len(), 2);
    assert_eq!(doc.texts.len(), 2);
}

#[test]
fn test_roundtrip_circle() {
    let circles = vec![DxfCircle::new(f(10.0), f(20.0), f(5.0))];
    let mut writer = DxfWriter::new();
    let dxf_text = writer.write_all(&[], &[], &circles, &[]);

    let doc = parse_dxf(&dxf_text).unwrap();
    assert_eq!(doc.circles.len(), 1);
    assert!((num(&doc.circles[0].x) - 10.0).abs() < 0.001);
    assert!((num(&doc.circles[0].y) - 20.0).abs() < 0.001);
    assert!((num(&doc.circles[0].radius) - 5.0).abs() < 0.001);
}

#[test]
fn test_roundtrip_lwpolyline() {
    let polylines = vec![
        DxfLwPolyline::new(vec![(f(0.0), f(0.0)), (f(10.0), f(0.0)), (f(10.0), f(10.0))]),
    ];
    let mut writer = DxfWriter::new();
    let dxf_text = writer.write_all(&[], &[], &[], &polylines);

    let doc = parse_dxf(&dxf_text).unwrap();
    assert_eq!(doc.polylines.len(), 1);
    assert_eq!(doc.polylines[0].vertices.len(), 3);
    assert!(!doc.polylines[0].closed);
}

#[test]
fn test_roundtrip_japanese_text() {
    let texts = vec![DxfText::new(f(0.0), f(0.0), "横断歩道")];
    let writer = DxfWriter::new();
    let dxf_text = writer.write(&[], &texts);

    let doc = parse_dxf(&dxf_text).unwrap();
    assert_eq!(doc.texts[0].text, "横断歩道");
}

#[test]
fn test_roundtrip_preserves_layer_names() {
    let lines = vec![
        DxfLine::with_style(f(0.0), f(0.0), f(1.0), f(1.0), 3, "中心線"),
        DxfLine::with_style(f(0.0), f(0.0), f(1.0), f(1.0), 5, "横断歩道"),
    ];
    let writer = DxfWriter::new();
    let dxf_text = writer.write(&lines, &[]);

    let doc = parse_dxf(&dxf_text).unwrap();
    assert_eq!(doc.lines[0].layer, "中心線");
    assert_eq!(doc.lines[1].layer, "横断歩道");
}

#[test]
fn test_roundtrip_line_negative_coords() {
    let lines = vec![DxfLine::new(f(-100.0), f(-200.0), f(-300.0), f(-400.0))];
    let writer = DxfWriter::new();
    let dxf_text = writer.write(&lines, &[]);
    let doc = parse_dxf(&dxf_text).unwrap();
    assert!((num(&doc.lines[0].x1) - (-100.0)).abs() < 0.001);
    assert!((num(&doc.lines[0].y2) - (-400.0)).abs() < 0.001);
}

#[test]
fn test_roundtrip_line_zero_length() {
    let lines = vec![DxfLine::new(f(5.0), f(5.0), f(5.0), f(5.0))];
    let writer = DxfWriter::new();
    let dxf_text = writer.write(&lines, &[]);
    let doc = parse_dxf(&dxf_text).unwrap();
    assert!((num(&doc.lines[0].x1) - num(&doc.lines[0].x2)).abs() < 0.001);
}

#[test]
fn test_roundtrip_text_all_fields() {
    let texts = vec![DxfText::new(f(10.0), f(20.0), "Full")
        .height(f(5.0))
        .rotation(f(45.0))
        .color(3)
        .align_h(HorizontalAlignment::Center)
        .align_v(VerticalAlignment::Middle)
        .layer("MyLayer")];
    let writer = DxfWriter::new();
    let dxf_text = writer.write(&[], &texts);
    let doc = parse_dxf(&dxf_text).unwrap();
    let t = &doc.texts[0];
    assert!((num(&t.x) - 10.0).abs() < 0.001);
    assert!((num(&t.y) - 20.0).abs() < 0.001);
    assert_eq!(t.text, "Full");
    assert!((num(&t.height) - 5.0).abs() < 0.001);
    assert!((num(&t.rotation) - 45.0).abs() < 0.001);
    assert_eq!(t.color, 3);
    assert_eq!(t.align_h, HorizontalAlignment::Center);
    assert_eq!(t.align_v, VerticalAlignment::Middle);
    assert_eq!(t.layer, "MyLayer");
}

#[test]
fn test_roundtrip_text_default_alignment() {
    let texts = vec![DxfText::new(f(0.0), f(0.0), "Default")];
    let writer = DxfWriter::new();
    let dxf_text = writer.write(&[], &texts);
    let doc = parse_dxf(&dxf_text).unwrap();
    assert_eq!(doc.texts[0].align_h, HorizontalAlignment::Left);
    assert_eq!(doc.texts[0].align_v, VerticalAlignment::Baseline);
}

#[test]
fn test_roundtrip_circle_with_style() {
    let circles = vec![DxfCircle::new(f(100.0), f(200.0), f(50.0)).color(3).layer("Circles")];
    let mut writer = DxfWriter::new();
    let dxf_text = writer.write_all(&[], &[], &circles, &[]);
    let doc = parse_dxf(&dxf_text).unwrap();
    assert_eq!(doc.circles[0].color, 3);
    assert_eq!(doc.circles[0].layer, "Circles");
}

#[test]
fn test_roundtrip_lwpolyline_closed() {
    let polylines = vec![DxfLwPolyline::closed(vec![
        (f(0.0), f(0.0)), (f(10.0), f(0.0)), (f(10.0), f(10.0)), (f(0.0), f(10.0)),
    ])];
    let mut writer = DxfWriter::new();
    let dxf_text = writer.write_all(&[], &[], &[], &polylines);
    let doc = parse_dxf(&dxf_text).unwrap();
    assert!(doc.polylines[0].closed);
    assert_eq!(doc.polylines[0].vertices.len(), 4);
}

#[test]
fn test_roundtrip_lwpolyline_with_style() {
    let polylines = vec![DxfLwPolyline::new(vec![(f(1.0), f(2.0)), (f(3.0), f(4.0))])
        .color(5)
        .layer("Outline")];
    let mut writer = DxfWriter::new();
    let dxf_text = writer.write_all(&[], &[], &[], &polylines);
    let doc = parse_dxf(&dxf_text).unwrap();
    assert_eq!(doc.polylines[0].color, 5);
    assert_eq!(doc.polylines[0].layer, "Outline");
}

#[test]
fn test_roundtrip_all_entity_types() {
    let lines = vec![DxfLine::new(f(0.0), f(0.0), f(10.0), f(10.0))];
    let texts = vec![DxfText::new(f(5.0), f(5.0), "Label")];
    let circles = vec![DxfCircle::new(f(20.0), f(20.0), f(5.0))];
    let polylines = vec![DxfLwPolyline::new(vec![(f(30.0), f(30.0)), (f(40.0), f(40.0))])];
    let mut writer = DxfWriter::new();
    let dxf_text = writer.write_all(&lines, &texts, &circles, &polylines);
    let doc = parse_dxf(&dxf_text).unwrap();
    assert_eq!(doc.lines.len(), 1);
    assert_eq!(doc.texts.len(), 1);
    assert_eq!(doc.circles.len(), 1);
    assert_eq!(doc.polylines.len(), 1);
}

#[test]
fn test_roundtrip_many_lines() {
    let lines: Vec<DxfLine> = (0..100).map(|i| {
        DxfLine::new(f(i as f64), f(0.0), f((i + 1) as f64), f(0.0))
    }).collect();
    let writer = DxfWriter::new();
    let dxf_text = writer.write(&lines, &[]);
    let doc = parse_dxf(&dxf_text).unwrap();
    assert_eq!(doc.lines.len(), 100);
}

#[test]
fn test_roundtrip_text_empty_content() {
    let texts = vec![DxfText::new(f(0.0), f(0.0), "")];
    let writer = DxfWriter::new();
    let dxf_text = writer.write(&[], &texts);
    let doc = parse_dxf(&dxf_text).unwrap();
    assert_eq!(doc.texts.len(), 1);
    assert_eq!(doc.texts[0].text, "");
}

#[test]
fn test_roundtrip_preserves_color() {
    let lines = vec![
        DxfLine::new(f(0.0), f(0.0), f(1.0), f(1.0)).color(1),
        DxfLine::new(f(0.0), f(0.0), f(1.0), f(1.0)).color(255),
    ];
    let writer = DxfWriter::new();
    let dxf_text = writer.write(&lines, &[]);
    let doc = parse_dxf(&dxf_text).unwrap();
    assert_eq!(doc.lines[0].color, 1);
    assert_eq!(doc.lines[1].color, 255);
}

#[test]
fn test_roundtrip_large_coordinates() {
    let lines = vec![DxfLine::new(f(999999.999), f(-888888.888), f(777777.777), f(-666666.666))];
    let writer = DxfWriter::new();
    let dxf_text = writer.write(&lines, &[]);
    let doc = parse_dxf(&dxf_text).unwrap();
    assert!((num(&doc.lines[0].x1) - 999999.999).abs() < 0.01);
    assert!((num(&doc.lines[0].y1) - (-888888.888)).abs() < 0.01);
}

#[test]
fn test_roundtrip_verify_all_line_coords() {
    let original = vec![
        DxfLine::new(f(0.0), f(0.0), f(100.0), f(200.0)),
        DxfLine::new(f(-50.0), f(-75.0), f(999.9), f(0.001)),
        DxfLine::new(f(1e6), f(-1e6), f(0.0), f(0.0)),
    ];
    let writer = DxfWriter::new();
    let dxf_text = writer.write(&original, &[]);
    let doc = parse_dxf(&dxf_text).unwrap();
    assert_eq!(doc.lines.len(), original.len());
    for (parsed, orig) in doc.lines.iter().zip(original.iter()) {
        assert!((num(&parsed.x1) - num(&orig.x1)).abs() < 0.01, "x1 mismatch");
        assert!((num(&parsed.y1) - num(&orig.y1)).abs() < 0.01, "y1 mismatch");
        assert!((num(&parsed.x2) - num(&orig.x2)).abs() < 0.01, "x2 mismatch");
        assert!((num(&parsed.y2) - num(&orig.y2)).abs() < 0.01, "y2 mismatch");
        assert_eq!(parsed.color, orig.color);
        assert_eq!(parsed.layer, orig.layer);
    }
}

#[test]
fn test_roundtrip_verify_all_text_fields() {
    let original = vec![
        DxfText::new(f(0.0), f(0.0), "Origin"),
        DxfText::new(f(100.0), f(200.0), "No.1+5").height(f(250.0)).rotation(f(-90.0)).color(5).layer("測点"),
        DxfText::new(f(-50.0), f(-50.0), "横断歩道").height(f(150.0)).color(3),
    ];
    let writer = DxfWriter::new();
    let dxf_text = writer.write(&[], &original);
    let doc = parse_dxf(&dxf_text).unwrap();
    assert_eq!(doc.texts.len(), original.len());
    for (parsed, orig) in doc.texts.iter().zip(original.iter()) {
        assert!((num(&parsed.x) - num(&orig.x)).abs() < 0.01, "x mismatch for '{}'", orig.text);
        assert!((num(&parsed.y) - num(&orig.y)).abs() < 0.01, "y mismatch for '{}'", orig.text);
        assert_eq!(parsed.text, orig.text);
        assert!((num(&parsed.height) - num(&orig.height)).abs() < 0.01, "height mismatch for '{}'", orig.text);
        assert!((num(&parsed.rotation) - num(&orig.rotation)).abs() < 0.01, "rotation mismatch for '{}'", orig.text);
        assert_eq!(parsed.color, orig.color, "color mismatch for '{}'", orig.text);
        assert_eq!(parsed.layer, orig.layer, "layer mismatch for '{}'", orig.text);
    }
}

#[test]
fn test_roundtrip_verify_circles() {
    let original = vec![
        DxfCircle::new(f(0.0), f(0.0), f(1.0)),
        DxfCircle::new(f(500.0), f(-300.0), f(99.9)).color(3).layer("丸"),
        DxfCircle::new(f(-1000.0), f(2000.0), f(0.5)),
    ];
    let mut writer = DxfWriter::new();
    let dxf_text = writer.write_all(&[], &[], &original, &[]);
    let doc = parse_dxf(&dxf_text).unwrap();
    assert_eq!(doc.circles.len(), original.len());
    for (parsed, orig) in doc.circles.iter().zip(original.iter()) {
        assert!((num(&parsed.x) - num(&orig.x)).abs() < 0.01, "x mismatch");
        assert!((num(&parsed.y) - num(&orig.y)).abs() < 0.01, "y mismatch");
        assert!((num(&parsed.radius) - num(&orig.radius)).abs() < 0.01, "radius mismatch");
        assert_eq!(parsed.color, orig.color);
        assert_eq!(parsed.layer, orig.layer);
    }
}

#[test]
fn test_roundtrip_verify_lwpolylines() {
    let original = vec![
        DxfLwPolyline::new(vec![(f(0.0), f(0.0)), (f(10.0), f(0.0)), (f(10.0), f(10.0))]),
        DxfLwPolyline::closed(vec![(f(100.0), f(100.0)), (f(200.0), f(100.0)), (f(200.0), f(200.0)), (f(100.0), f(200.0))])
            .color(5).layer("外枠"),
    ];
    let mut writer = DxfWriter::new();
    let dxf_text = writer.write_all(&[], &[], &[], &original);
    let doc = parse_dxf(&dxf_text).unwrap();
    assert_eq!(doc.polylines.len(), original.len());
    for (parsed, orig) in doc.polylines.iter().zip(original.iter()) {
        assert_eq!(parsed.vertices.len(), orig.vertices.len(), "vertex count mismatch");
        assert_eq!(parsed.closed, orig.closed, "closed mismatch");
        assert_eq!(parsed.color, orig.color);
        assert_eq!(parsed.layer, orig.layer);
        for (pv, ov) in parsed.vertices.iter().zip(orig.vertices.iter()) {
            assert!((num(&pv.0) - num(&ov.0)).abs() < 0.01, "vertex x mismatch");
            assert!((num(&pv.1) - num(&ov.1)).abs() < 0.01, "vertex y mismatch");
        }
    }
}

#[test]
fn test_roundtrip_double_parse_idempotent() {
    // Write → parse → write again → parse again, verify identical
    let lines = vec![DxfLine::with_style(f(10.0), f(20.0), f(30.0), f(40.0), 5, "Layer1")];
    let texts = vec![DxfText::new(f(50.0), f(60.0), "Hello").height(f(10.0))];

    let writer1 = DxfWriter::new();
    let dxf1 = writer1.write(&lines, &texts);
    let doc1 = parse_dxf(&dxf1).unwrap();

    // Re-write from parsed entities
    let writer2 = DxfWriter::new();
    let dxf2 = writer2.write(&doc1.lines, &doc1.texts);
    let doc2 = parse_dxf(&dxf2).unwrap();

    assert_eq!(doc1.lines.len(), doc2.lines.len());
    assert_eq!(doc1.texts.len(), doc2.texts.len());
    assert!((num(&doc2.lines[0].x1) - 10.0).abs() < 0.01);
    assert_eq!(doc2.texts[0].text, "Hello");
}

#[test]
fn test_write_then_read_gives_back_the_drawing() {
    let lines = vec![DxfLine::with_style(f(-1.5), f(2.0), f(1e-3), f(0.0), -7, "中 心")];
    let texts = vec![DxfText::new(f(1.0), f(2.0), "a b").height(f(3.5)).rotation(f(90.0))
        .align_h(HorizontalAlignment::Right).align_v(VerticalAlignment::Bottom)];
    let circles = vec![DxfCircle::new(f(1.0), f(1.0), f(2.0)).layer("c")];
    let polys = vec![DxfLwPolyline::closed(vec![(f(0.0), f(0.0)), (f(1.0), f(2.0))]).color(4)];
    let text = DxfWriter::new().write_all(&lines, &texts, &circles, &polys);
    let doc = parse_dxf(&text).unwrap();
    assert_eq!(doc.lines[0].x1.as_str(), lines[0].x1.as_str());
    assert_eq!(doc.lines[0].x2.as_str(), lines[0].x2.as_str());
    assert_eq!(doc.lines[0].color, -7);
    assert_eq!(doc.lines[0].layer, "中 心");
    assert_eq!(doc.texts[0].text, "a b");
    assert_eq!(doc.texts[0].rotation.as_str(), "90");
    assert_eq!(doc.texts[0].align_h, HorizontalAlignment::Right);
    assert_eq!(doc.texts[0].align_v, VerticalAlignment::Bottom);
    assert_eq!(doc.circles[0].layer, "c");
    assert!(doc.polylines[0].closed);
    assert_eq!(doc.polylines[0].color, 4);
    assert_eq!(doc.polylines[0].vertices[1].1.as_str(), "2");
}

#[test]
fn test_write_then_read_trims_padded_text() {
    // A text with surrounding spaces is not given back as written: the
    // reader trims each line.
    let texts = vec![DxfText::new(f(0.0), f(0.0), " padded ")];
    let doc = parse_dxf(&DxfWriter::new().write(&[], &texts)).unwrap();
    assert_eq!(doc.texts[0].text, "padded");
}

use road_drawing::dxf::{DxfLine, DxfText, HorizontalAlignment, VerticalAlignment};
use road_drawing::dxf_writer::DxfWriter;
use road_drawing::number::NumText;

/// A number literal.
fn num(s: &str) -> NumText {
    NumText::parse(s).unwrap()
}

#[test]
fn test_compat_dxf_line_with_style() {
    let line = DxfLine::with_style(num("0.0"), num("0.0"), num("10.0"), num("10.0"), 5, "Layer1");
    assert_eq!(line.color, 5);
    assert_eq!(line.layer, "Layer1");
}

#[test]
fn test_compat_horizontal_alignment_values() {
    assert_eq!(HorizontalAlignment::Left as i32, 0);
    assert_eq!(HorizontalAlignment::Center as i32, 1);
    assert_eq!(HorizontalAlignment::Right as i32, 2);
}

#[test]
fn test_compat_vertical_alignment_values() {
    assert_eq!(VerticalAlignment::Baseline as i32, 0);
    assert_eq!(VerticalAlignment::Bottom as i32, 1);
    assert_eq!(VerticalAlignment::Middle as i32, 2);
    assert_eq!(VerticalAlignment::Top as i32, 3);
}

#[test]
fn test_compat_horizontal_alignment_match() {
    // Every horizontal alignment can be matched on
    for &h in &[HorizontalAlignment::Left, HorizontalAlignment::Center, HorizontalAlignment::Right] {
        let _name = match h {
            HorizontalAlignment::Left => "left",
            HorizontalAlignment::Center => "center",
            HorizontalAlignment::Right => "right",
        };
    }
}

#[test]
fn test_compat_vertical_alignment_match() {
    // Every vertical alignment can be matched on
    for &v in &[VerticalAlignment::Baseline, VerticalAlignment::Bottom,
                VerticalAlignment::Middle, VerticalAlignment::Top] {
        let _name = match v {
            VerticalAlignment::Top => "top",
            VerticalAlignment::Middle => "middle",
            VerticalAlignment::Bottom | VerticalAlignment::Baseline => "bottom",
        };
    }
}

/// The value of a number literal.
fn val(n: &NumText) -> f64 {
    n.as_str().parse().unwrap()
}

#[test]
fn test_compat_dxf_line_new() {
    let line = DxfLine::new(num("1.0"), num("2.0"), num("3.0"), num("4.0"));
    assert_eq!(val(&line.x1), 1.0);
    assert_eq!(val(&line.y1), 2.0);
    assert_eq!(val(&line.x2), 3.0);
    assert_eq!(val(&line.y2), 4.0);
    assert_eq!(line.color, 7); // default white
    assert_eq!(line.layer, "0"); // default layer
}

#[test]
fn test_compat_dxf_line_builder() {
    let line = DxfLine::new(num("0.0"), num("0.0"), num("10.0"), num("10.0"))
        .color(3)
        .layer("MyLayer");
    assert_eq!(line.color, 3);
    assert_eq!(line.layer, "MyLayer");
}

#[test]
fn test_compat_dxf_text_new() {
    let text = DxfText::new(num("50.0"), num("50.0"), "Hello");
    assert_eq!(val(&text.x), 50.0);
    assert_eq!(val(&text.y), 50.0);
    assert_eq!(text.text, "Hello");
    assert_eq!(val(&text.height), 1.0);
    assert_eq!(val(&text.rotation), 0.0);
    assert_eq!(text.color, 7);
    assert_eq!(text.align_h, HorizontalAlignment::Left);
    assert_eq!(text.align_v, VerticalAlignment::Baseline);
}

#[test]
fn test_compat_dxf_text_builder() {
    let text = DxfText::new(num("0.0"), num("0.0"), "Test")
        .height(num("2.5"))
        .rotation(num("-90.0"))
        .color(5)
        .align_h(HorizontalAlignment::Center)
        .align_v(VerticalAlignment::Middle)
        .layer("TextLayer");
    assert_eq!(val(&text.height), 2.5);
    assert_eq!(val(&text.rotation), -90.0);
    assert_eq!(text.color, 5);
    assert_eq!(text.align_h, HorizontalAlignment::Center);
    assert_eq!(text.align_v, VerticalAlignment::Middle);
    assert_eq!(text.layer, "TextLayer");
}

#[test]
fn test_compat_dxf_writer_roundtrip() {
    let lines = vec![
        DxfLine::new(num("0.0"), num("0.0"), num("100.0"), num("100.0")),
        DxfLine::with_style(num("0.0"), num("100.0"), num("100.0"), num("0.0"), 3, "Layer1"),
    ];
    let texts = vec![
        DxfText::new(num("50.0"), num("50.0"), "Center")
            .align_h(HorizontalAlignment::Center)
            .align_v(VerticalAlignment::Middle),
    ];

    let writer = DxfWriter::new();
    let content = writer.write(&lines, &texts);

    assert!(content.contains("LINE"), "DXF should contain LINE entity");
    assert!(content.contains("TEXT"), "DXF should contain TEXT entity");
    assert!(content.contains("Center"), "DXF should contain text content");
    assert!(content.contains("Layer1"), "DXF should contain layer name");
    assert!(content.contains("EOF"), "DXF should end with EOF");
}

#[test]
fn test_writer_exact_output() {
    let lines = vec![DxfLine::with_style(num("1"), num("-2.5"), num("3e2"), num("4"), -3, "L")];
    let texts = vec![DxfText::new(num("5"), num("6"), "T x").align_v(VerticalAlignment::Top)];
    let content = DxfWriter::new().write(&lines, &texts);
    assert_eq!(
        content,
        "0\nSECTION\n2\nENTITIES\n\
         0\nLINE\n5\n1\n8\nL\n62\n-3\n10\n1\n20\n-2.5\n11\n3e2\n21\n4\n\
         0\nTEXT\n5\n2\n8\n0\n62\n7\n10\n5\n20\n6\n40\n1\n1\nT x\n50\n0\n72\n0\n73\n3\n\
         0\nENDSEC\n0\nEOF\n"
    );
}

#[test]
fn test_writer_handles_count_up_in_hex() {
    let lines: Vec<DxfLine> = (0..17).map(|_| DxfLine::new(num("0"), num("0"), num("1"), num("1"))).collect();
    let content = DxfWriter::new().write(&lines, &[]);
    assert!(content.starts_with("0\nSECTION\n2\nENTITIES\n0\nLINE\n5\n1\n8\n"));
    assert!(content.contains("0\nLINE\n5\nA\n8\n"));
    assert!(content.contains("0\nLINE\n5\nF\n8\n"));
    assert!(content.contains("0\nLINE\n5\n10\n8\n"));
    assert!(content.contains("0\nLINE\n5\n11\n8\n"));
    assert!(!content.contains("0\nLINE\n5\n12\n"));
    assert_eq!(content.matches("\n5\n").count(), 17);
}

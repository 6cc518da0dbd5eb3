use road_drawing::dxf::{DxfCircle, DxfLwPolyline, DxfText};
use road_drawing::comparator::DxfComparable;
use road_drawing::dxf::DxfLine;
use road_drawing::dxf_writer::DxfWriter;
use road_drawing::number::NumText;

/// The literal of a number.
fn lit(v: f64) -> NumText {
    NumText::parse(&v.to_string()).unwrap()
}

/// The writer's text for three lines forming a triangle.
fn dxf_3lines() -> String {
    let lines = vec![
        DxfLine::new(lit(0.0), lit(0.0), lit(100.0), lit(0.0)),
        DxfLine::new(lit(100.0), lit(0.0), lit(100.0), lit(100.0)),
        DxfLine::new(lit(100.0), lit(100.0), lit(0.0), lit(0.0)),
    ];
    let writer = DxfWriter::new();
    writer.write(&lines, &[])
}

#[test]
fn test_marking_golden_different_handles_equal() {
    // Generate twice — handle IDs will be identical in practice,
    // so we manually alter handles in the second copy
    let dxf1 = dxf_3lines();
    let dxf2 = dxf1.replace("5\n1", "5\nAA").replace("5\n2", "5\nBB").replace("5\n3", "5\nCC");

    // Verify handles actually differ
    assert_ne!(dxf1, dxf2, "Raw DXF strings should differ (different handles)");

    let norm1 = DxfComparable::normalize(&dxf1);
    let norm2 = DxfComparable::normalize(&dxf2);

    assert_eq!(
        norm1, norm2,
        "DXF with different handle IDs must compare equal after normalization"
    );
}

#[test]
fn test_marking_golden_extra_line_not_equal() {
    let lines_3 = vec![
        DxfLine::new(lit(0.0), lit(0.0), lit(100.0), lit(0.0)),
        DxfLine::new(lit(100.0), lit(0.0), lit(100.0), lit(100.0)),
        DxfLine::new(lit(100.0), lit(100.0), lit(0.0), lit(0.0)),
    ];
    let lines_4 = vec![
        DxfLine::new(lit(0.0), lit(0.0), lit(100.0), lit(0.0)),
        DxfLine::new(lit(100.0), lit(0.0), lit(100.0), lit(100.0)),
        DxfLine::new(lit(100.0), lit(100.0), lit(0.0), lit(0.0)),
        DxfLine::new(lit(50.0), lit(50.0), lit(200.0), lit(200.0)), // extra
    ];

    let writer = DxfWriter::new();
    let dxf_3 = writer.write(&lines_3, &[]);
    let dxf_4 = writer.write(&lines_4, &[]);

    let norm_3 = DxfComparable::normalize(&dxf_3);
    let norm_4 = DxfComparable::normalize(&dxf_4);

    assert_ne!(
        norm_3, norm_4,
        "DXF with extra entity must NOT compare equal"
    );
}

#[test]
fn test_marking_golden_empty_dxf() {
    let writer = DxfWriter::new();
    let empty_dxf = writer.write(&[], &[]);

    let norm = DxfComparable::normalize(&empty_dxf);

    // Empty DXF should normalize to empty entities
    assert!(
        norm.entities.is_empty(),
        "Empty DXF should have 0 normalized entities, got {}",
        norm.entities.len()
    );
}

#[test]
fn test_marking_golden_100_entities_stress() {
    let lines: Vec<DxfLine> = (0..100)
        .map(|i| {
            let f = i as f64;
            DxfLine::new(lit(f), lit(f), lit(f + 10.0), lit(f + 10.0))
        })
        .collect();

    let writer = DxfWriter::new();
    let dxf = writer.write(&lines, &[]);

    let norm = DxfComparable::normalize(&dxf);

    assert_eq!(
        norm.entities.len(),
        100,
        "100-entity DXF should normalize to 100 entities"
    );

    // Same content, different handles → still equal
    let dxf_alt = dxf.replace("5\n1\n", "5\nFF01\n");
    let norm_alt = DxfComparable::normalize(&dxf_alt);

    assert_eq!(
        norm, norm_alt,
        "100-entity DXF with altered handles must still compare equal"
    );
}

#[test]
fn test_normalize_ignores_entity_order() {
    let a = DxfLine::new(lit(0.0), lit(0.0), lit(1.0), lit(1.0));
    let b = DxfLine::new(lit(5.0), lit(5.0), lit(6.0), lit(6.0)).layer("X");
    let w = DxfWriter::new();
    let first = w.write(&[a.clone(), b.clone()], &[]);
    let second = w.write(&[b, a], &[]);
    assert_ne!(first, second);
    assert_eq!(DxfComparable::normalize(&first), DxfComparable::normalize(&second));
}

#[test]
fn test_normalize_ignores_handles_and_strips_them() {
    let a = "0\nSECTION\n2\nENTITIES\n0\nLINE\n5\n1A\n8\n0\n10\n1\n0\nENDSEC\n0\nEOF\n";
    let b = "0\nSECTION\n2\nENTITIES\n0\nLINE\n5\nFF\n8\n0\n10\n1\n0\nENDSEC\n0\nEOF\n";
    let na = DxfComparable::normalize(a);
    assert_eq!(na, DxfComparable::normalize(b));
    assert_eq!(na.entities, vec!["LINE\n8\n0\n10\n1\n".to_string()]);
}

#[test]
fn test_normalize_sorts_entities() {
    let dxf = "0\nSECTION\n2\nENTITIES\n0\nTEXT\n1\nb\n0\nLINE\n8\nz\n0\nENDSEC\n";
    let n = DxfComparable::normalize(dxf);
    assert_eq!(n.entities, vec!["LINE\n8\nz\n".to_string(), "TEXT\n1\nb\n".to_string()]);
    assert!(DxfComparable::normalize("0\nSECTION\n2\nHEADER\n0\nENDSEC\n").entities.is_empty());
}

#[test]
fn test_normalize_counts_written_entities() {
    let lines = vec![
        DxfLine::new(lit(0.0), lit(0.0), lit(1.0), lit(1.0)),
        DxfLine::new(lit(0.0), lit(0.0), lit(1.0), lit(1.0)),
    ];
    let texts = vec![DxfText::new(lit(5.0), lit(6.0), "T")];
    let circles = vec![DxfCircle::new(lit(1.0), lit(2.0), lit(3.0))];
    let polys = vec![DxfLwPolyline::new(vec![(lit(0.0), lit(0.0)), (lit(1.0), lit(0.0))])];
    let mut writer = DxfWriter::new();
    let dxf = writer.write_all(&lines, &texts, &circles, &polys);
    let norm = DxfComparable::normalize(&dxf);
    assert_eq!(norm.entities.len(), 5);
    assert!(norm.entities[0].starts_with("CIRCLE\n"));
    assert_eq!(norm.entities[1], norm.entities[2]);
    assert!(norm.entities[1].starts_with("LINE\n"));
    let mut sorted = norm.entities.clone();
    sorted.sort();
    assert_eq!(sorted, norm.entities);
    assert!(norm.entities.iter().all(|e| e.lines().nth(1) != Some("5")));
}

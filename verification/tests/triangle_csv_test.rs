use road_drawing::number::NumText;
use road_drawing::triangle_csv::{parse_csv, CsvError};

/// The value of a length literal.
fn num(n: &NumText) -> f64 {
    n.as_str().parse().unwrap()
}

#[test]
fn test_parse_header_minimal() {
    let csv = "\
koujiname, 最小形式テスト
rosenname, テスト路線
gyousyaname, テスト業者
zumennum, 1
1, 6.0, 5.0, 4.0
";
    let result = parse_csv(csv).unwrap();
    assert_eq!(result.header.koujiname, "最小形式テスト");
    assert_eq!(result.header.rosenname, "テスト路線");
    assert_eq!(result.header.gyousyaname, "テスト業者");
    assert_eq!(result.header.zumennum, "1");
}

#[test]
fn test_parse_min_format() {
    let csv = "\
koujiname, 最小形式テスト
rosenname, テスト路線
gyousyaname, テスト業者
zumennum, 1
1, 6.0, 5.0, 4.0
2, 5.5, 4.5, 3.5
3, 4.0, 3.5, 3.0
";
    let result = parse_csv(csv).unwrap();
    assert_eq!(result.triangles.len(), 3);

    // Triangle 1: independent
    assert_eq!(result.triangles[0].number, 1);
    assert!((num(&result.triangles[0].length_a) - 6.0).abs() < 0.001);
    assert!((num(&result.triangles[0].length_b) - 5.0).abs() < 0.001);
    assert!((num(&result.triangles[0].length_c) - 4.0).abs() < 0.001);
    assert_eq!(result.triangles[0].parent_number, -1);
    assert_eq!(result.triangles[0].connection_type, -1);

    // Triangle 3
    assert_eq!(result.triangles[2].number, 3);
    assert!((num(&result.triangles[2].length_a) - 4.0).abs() < 0.001);
}

#[test]
fn test_min_format_all_independent() {
    let csv = "\
koujiname, test
rosenname, test
gyousyaname, test
zumennum, 1
1, 6.0, 5.0, 4.0
2, 5.5, 4.5, 3.5
3, 4.0, 3.5, 3.0
";
    let result = parse_csv(csv).unwrap();
    for t in &result.triangles {
        assert_eq!(t.parent_number, -1, "MIN format triangles should be independent");
        assert_eq!(t.connection_type, -1);
    }
}

#[test]
fn test_parse_conn_format() {
    let csv = "\
koujiname, 接続形式テスト
rosenname, テスト路線
gyousyaname, テスト業者
zumennum, 1
1, 6.0, 5.0, 4.0, -1, -1
2, 5.0, 4.0, 3.0, 1, 1
3, 4.0, 3.5, 3.0, 1, 2
4, 4.0, 3.5, 3.0, 2, 1
5, 3.0, 2.5, 2.0, 2, 2
6, 3.5, 3.0, 2.5, 3, 1
7, 3.0, 2.5, 2.0, 3, 2
";
    let result = parse_csv(csv).unwrap();
    assert_eq!(result.triangles.len(), 7);

    // Triangle 1: independent
    assert_eq!(result.triangles[0].parent_number, -1);
    assert_eq!(result.triangles[0].connection_type, -1);

    // Triangle 2: connects to parent 1's B edge
    assert_eq!(result.triangles[1].number, 2);
    assert!((num(&result.triangles[1].length_a) - 5.0).abs() < 0.001);
    assert_eq!(result.triangles[1].parent_number, 1);
    assert_eq!(result.triangles[1].connection_type, 1); // parent's B edge

    // Triangle 3: connects to parent 1's C edge
    assert_eq!(result.triangles[2].number, 3);
    assert!((num(&result.triangles[2].length_a) - 4.0).abs() < 0.001);
    assert_eq!(result.triangles[2].parent_number, 1);
    assert_eq!(result.triangles[2].connection_type, 2); // parent's C edge
}

#[test]
fn test_conn_format_edge_length_match() {
    // Child's A-edge must match parent's connection edge
    // Triangle 2 connects to parent 1's B edge:
    //   child.length_a (5.0) == parent.length_b (5.0) ✓
    // Triangle 3 connects to parent 1's C edge:
    //   child.length_a (4.0) == parent.length_c (4.0) ✓
    let csv = "\
koujiname, test
rosenname, test
gyousyaname, test
zumennum, 1
1, 6.0, 5.0, 4.0, -1, -1
2, 5.0, 4.0, 3.0, 1, 1
3, 4.0, 3.5, 3.0, 1, 2
";
    let result = parse_csv(csv).unwrap();
    let parent = &result.triangles[0];
    let child_b = &result.triangles[1];
    let child_c = &result.triangles[2];

    // child on B: child.A == parent.B
    assert!((num(&child_b.length_a) - num(&parent.length_b)).abs() < 0.001,
        "Child on B edge: A={} should match parent B={}", num(&child_b.length_a), num(&parent.length_b));

    // child on C: child.A == parent.C
    assert!((num(&child_c.length_a) - num(&parent.length_c)).abs() < 0.001,
        "Child on C edge: A={} should match parent C={}", num(&child_c.length_a), num(&parent.length_c));
}

#[test]
fn test_parse_too_few_columns() {
    let csv = "\
koujiname, test
rosenname, test
gyousyaname, test
zumennum, 1
1, 6.0, 5.0
";
    let result = parse_csv(csv);
    assert!(result.is_err());
}

#[test]
fn test_parse_invalid_number() {
    let csv = "\
koujiname, test
rosenname, test
gyousyaname, test
zumennum, 1
1, abc, 5.0, 4.0
";
    let result = parse_csv(csv);
    assert!(result.is_err());
}

#[test]
fn test_parse_empty() {
    let csv = "";
    let result = parse_csv(csv);
    assert!(result.is_err());
}


#[test]
fn test_parse_csv_error_messages() {
    let too_few = parse_csv("koujiname, a\nzumennum, 1\n1, 6.0, 5.0\n").unwrap_err();
    assert_eq!(too_few.message(), "Row 3: got 3 columns, need 4");
    let bad = parse_csv("zumennum, 1\n1, 6.0, x5, 4.0\n").unwrap_err();
    assert_eq!(bad.message(), "Row 2: invalid length_b value 'x5'");
    let bad_parent = parse_csv("1, 6.0, 5.0, 4.0, p, 1\n").unwrap_err();
    assert_eq!(bad_parent.message(), "Row 1: invalid parent_number value 'p'");
    assert_eq!(parse_csv("").unwrap_err().message(), "Invalid format: Empty input");
    assert_eq!(
        parse_csv("koujiname, a\nzumennum, 1\n").unwrap_err().message(),
        "Invalid format: No data rows after header"
    );
    assert_eq!(
        parse_csv("zumennum, 1\n   \n\n").unwrap_err().message(),
        "Invalid format: No triangle rows found"
    );
}

#[test]
fn test_parse_csv_error_variants() {
    match parse_csv("1, 2.0, 3.0\n") {
        Err(CsvError::TooFewColumns { row, got, need }) => {
            assert_eq!((row, got, need), (1, 3, 4));
        }
        other => panic!("unexpected {:?}", other),
    }
    match parse_csv("zumennum, 7\nx, 2.0, 3.0, 4.0\n") {
        Err(CsvError::InvalidNumber { row, col, value }) => {
            assert_eq!((row, col, value.as_str()), (2, "number", "x"));
        }
        other => panic!("unexpected {:?}", other),
    }
    match parse_csv("") {
        Err(CsvError::InvalidFormat(m)) => assert_eq!(m, "Empty input"),
        other => panic!("unexpected {:?}", other),
    }
}

#[test]
fn test_parse_csv_header_without_zumennum_reads_from_first_line() {
    // Every line is a header entry and none is zumennum: data start at line 1.
    match parse_csv("koujiname, a\nrosenname, b\n") {
        Err(CsvError::TooFewColumns { row, got, need }) => {
            assert_eq!((row, got, need), (1, 2, 4));
        }
        other => panic!("unexpected {:?}", other),
    }
}

#[test]
fn test_parse_csv_no_header_and_case_insensitive_keys() {
    let r = parse_csv("1, 6.0, 5.0, 4.0\n").unwrap();
    assert_eq!(r.header.koujiname, "");
    assert_eq!(r.triangles.len(), 1);
    let r = parse_csv("KoujiName ,  Upper \nZUMENNUM, 9\n2, 1e2, 5, 4.5, 1, 2\n").unwrap();
    assert_eq!(r.header.koujiname, "Upper");
    assert_eq!(r.header.zumennum, "9");
    assert_eq!(r.triangles[0].number, 2);
    assert_eq!(r.triangles[0].length_a.as_str(), "1e2");
    assert_eq!(r.triangles[0].parent_number, 1);
    assert_eq!(r.triangles[0].connection_type, 2);
}

#[test]
fn test_parse_csv_crlf_and_blank_lines() {
    let r = parse_csv("zumennum, 1\r\n\r\n1, 6, 5, 4\r\n\r\n2, 6, 5, 4\r\n").unwrap();
    assert_eq!(r.triangles.len(), 2);
    assert_eq!(r.triangles[1].number, 2);
}

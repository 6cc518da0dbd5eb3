use road_drawing::grid::{csv_to_grid, normalize_number};
use road_drawing::number::NumText;

/// The value of a number literal.
fn num(n: &NumText) -> f64 {
    n.as_str().parse().unwrap()
}

#[test]
fn test_normalize_fullwidth_all_digits() {
    assert_eq!(normalize_number("０１２３４５６７８９"), "0123456789");
}

#[test]
fn test_normalize_fullwidth_decimal() {
    assert_eq!(normalize_number("３．１４"), "3.14");
}

#[test]
fn test_normalize_fullwidth_negative() {
    assert_eq!(normalize_number("－５．０"), "-5.0");
}

#[test]
fn test_normalize_ascii_passthrough() {
    assert_eq!(normalize_number("3.14"), "3.14");
    assert_eq!(normalize_number("-5.0"), "-5.0");
}

#[test]
fn test_normalize_katakana_minus() {
    // ー (katakana prolonged sound mark) sometimes used as minus
    assert_eq!(normalize_number("ー５"), "-5");
}

#[test]
fn test_csv_to_grid_basic() {
    let csv = "name,x,wl,wr\nNo.0,0.0,3.45,3.55\nNo.1,20.0,3.50,3.50\n";
    let rows = csv_to_grid(csv);
    assert_eq!(rows.len(), 2);
    assert_eq!(rows[0].name, "No.0");
    assert!((num(&rows[0].x) - 0.0).abs() < 1e-9);
    assert!((num(&rows[0].wl) - 3.45).abs() < 1e-9);
    assert!((num(&rows[0].wr) - 3.55).abs() < 1e-9);
    assert_eq!(rows[1].name, "No.1");
}

#[test]
fn test_csv_to_grid_no_header() {
    let csv = "No.0,0.0,0.8,0.0\n0+1.2,1.15,0.63,0.0\n";
    let rows = csv_to_grid(csv);
    assert_eq!(rows.len(), 2);
}

#[test]
fn test_csv_to_grid_japanese_header() {
    let csv = "測点名,単延長L,幅員W,幅員右\nNo.0,0,0.8,0\n";
    let rows = csv_to_grid(csv);
    assert_eq!(rows.len(), 1);
    assert_eq!(rows[0].name, "No.0");
}

#[test]
fn test_csv_to_grid_missing_wr() {
    let csv = "name,x,wl\nNo.0,0.0,3.45\n";
    let rows = csv_to_grid(csv);
    assert_eq!(rows.len(), 1);
    assert!((num(&rows[0].wr) - 0.0).abs() < 1e-9, "Missing wr should default to 0");
}

#[test]
fn test_csv_to_grid_empty() {
    assert!(csv_to_grid("").is_empty());
}

#[test]
fn test_csv_to_grid_only_header() {
    assert!(csv_to_grid("name,x,wl,wr\n").is_empty());
}

#[test]
fn test_csv_to_grid_empty_lines() {
    let csv = "name,x,wl,wr\n\nNo.0,0,1,1\n\nNo.1,20,1,1\n\n";
    let rows = csv_to_grid(csv);
    assert_eq!(rows.len(), 2);
}

#[test]
fn test_csv_to_grid_whitespace_padding() {
    let csv = "  No.0  ,  0.0  ,  3.45  ,  3.55  \n";
    let rows = csv_to_grid(csv);
    assert_eq!(rows.len(), 1);
    assert_eq!(rows[0].name, "No.0");
    assert!((num(&rows[0].wl) - 3.45).abs() < 1e-9);
}

#[test]
fn test_csv_to_grid_fullwidth_digits() {
    let csv = "No.０,０,３.４５,３.５５\n";
    let rows = csv_to_grid(csv);
    assert_eq!(rows.len(), 1);
    assert!((num(&rows[0].x) - 0.0).abs() < 1e-9);
    assert!((num(&rows[0].wl) - 3.45).abs() < 1e-9);
    assert!((num(&rows[0].wr) - 3.55).abs() < 1e-9);
}

#[test]
fn test_csv_to_grid_fullwidth_minus() {
    let csv = "No.0,0,－1.5,0\n";
    let rows = csv_to_grid(csv);
    assert_eq!(rows.len(), 1);
    assert!((num(&rows[0].wl) - (-1.5)).abs() < 1e-9);
}

#[test]
fn test_csv_to_grid_negative_width() {
    let csv = "No.0,0,-2.5,0\n";
    let rows = csv_to_grid(csv);
    assert_eq!(rows.len(), 1);
    assert!((num(&rows[0].wl) - (-2.5)).abs() < 1e-9);
}

#[test]
fn test_csv_to_grid_zero_width() {
    let csv = "No.0,0,0,0\n";
    let rows = csv_to_grid(csv);
    assert_eq!(rows.len(), 1);
    assert!((num(&rows[0].wl) - 0.0).abs() < 1e-9);
    assert!((num(&rows[0].wr) - 0.0).abs() < 1e-9);
}

#[test]
fn test_csv_to_grid_non_numeric_x_skipped() {
    let csv = "No.0,abc,1,1\nNo.1,20,1,1\n";
    let rows = csv_to_grid(csv);
    assert_eq!(rows.len(), 1, "Row with non-numeric x should be skipped");
    assert_eq!(rows[0].name, "No.1");
}

#[test]
fn test_csv_to_grid_mixed_valid_invalid() {
    let csv = "name,x,wl,wr\nNo.0,0,1,1\nbad,not_a_number,1,1\nNo.2,40,2,2\n";
    let rows = csv_to_grid(csv);
    assert_eq!(rows.len(), 2);
    assert_eq!(rows[0].name, "No.0");
    assert_eq!(rows[1].name, "No.2");
}

#[test]
fn test_csv_to_grid_keeps_literals_and_skips_short_lines() {
    let rows = csv_to_grid("onlyname\nStation A,1\nP,１０.５,x,ー2\r\n");
    // "onlyname" has one field; "Station A" is a header (mentions station).
    assert_eq!(rows.len(), 1);
    assert_eq!(rows[0].name, "P");
    assert_eq!(rows[0].x.as_str(), "10.5");
    assert_eq!(rows[0].wl.as_str(), "0");
    assert_eq!(rows[0].wr.as_str(), "-2");
}

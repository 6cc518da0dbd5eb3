use road_drawing::number::NumText;
use road_drawing::sections::{get_available_sections, list_sections_text, ParseError};
use road_drawing::survey::extract_section_data;

/// The value of a number literal.
fn num(n: &NumText) -> f64 {
    n.as_str().parse().unwrap()
}

/// Generate a CSV string with `n_sections` sections, each with `n_stations` rows.
/// Uses headerless 4-column format: name, span_distance, wl, wr
/// Distances are span values (all 20.0) — the transform pipeline converts to cumulative.
fn generate_large_csv(n_sections: usize, n_stations: usize) -> String {
    let mut csv = String::with_capacity(n_sections * n_stations * 40);
    for s in 1..=n_sections {
        csv.push_str(&format!("区間{},台形計算\n", s));
        for st in 0..n_stations {
            let name = format!("NO.{}", st);
            let span = 20.0; // span distance (not cumulative)
            let wl = 3.0 + (st % 5) as f64 * 0.1;
            let wr = 3.5 + (st % 3) as f64 * 0.1;
            csv.push_str(&format!("{},{:.1},{:.2},{:.2}\n", name, span, wl, wr));
        }
    }
    csv
}


#[test]
fn test_get_sections_from_filename() {
    assert_eq!(get_available_sections("", "区間1.csv"), vec!["区間1"]);
    assert_eq!(get_available_sections("", "区間3.csv"), vec!["区間3"]);
    assert_eq!(get_available_sections("", "data.csv"), vec!["区間1"]); // fallback
}

#[test]
fn test_get_sections_from_body() {
    let text = ",,,,\n,,,,\n区間1,台形計算,,,\n測点名,単延長L,幅員W,平均幅員Wa,面積m2\nNo.0,0,0.8,,\n";
    assert_eq!(
        get_available_sections(text, "sheet.csv"),
        vec!["区間1"]
    );
}

#[test]
fn test_get_sections_no_body_no_filename_match() {
    assert_eq!(get_available_sections("random content", "data.csv"), vec!["区間1"]);
}

#[test]
fn test_get_sections_multiple_in_body() {
    let text = "区間1,台形計算,,,\ndata\n区間2,台形計算,,,\ndata\n区間5,台形計算,,,\n";
    let sections = get_available_sections(text, "sheet.csv");
    assert_eq!(sections, vec!["区間1", "区間2", "区間5"]);
}

#[test]
fn test_get_sections_duplicate_names() {
    let text = "区間1,台形計算,,,\ndata\n区間1,台形計算,,,\nmore data\n";
    let sections = get_available_sections(text, "sheet.csv");
    // Regex finds both occurrences
    assert_eq!(sections.len(), 2);
}

#[test]
fn test_parse_error_display() {
    let e1 = ParseError::NoData;
    assert_eq!(e1.message(), "No data found");

    let e2 = ParseError::InvalidFormat("test error".to_string());
    assert!(e2.message().contains("test error"));
}

#[test]
fn test_list_sections_text_fallback() {
    let sections = list_sections_text("no sections here", "random.csv");
    assert_eq!(sections, vec!["区間1"]);
}

#[test]
fn test_list_sections_text_from_filename() {
    let sections = list_sections_text("", "区間3.csv");
    assert_eq!(sections, vec!["区間3"]);
}

#[test]
fn test_stress_detect_100_sections() {
    let csv = generate_large_csv(100, 50);
    let sections = get_available_sections(&csv, "data.csv");
    assert_eq!(sections.len(), 100, "Should detect all 100 sections");
    assert_eq!(sections[0], "区間1");
    assert_eq!(sections[99], "区間100");
}

#[test]
fn test_stress_list_sections_text_100() {
    let csv = generate_large_csv(100, 50);
    let sections = list_sections_text(&csv, "data.csv");
    assert_eq!(sections.len(), 100);
}

#[test]
fn test_stress_extract_first_section() {
    let csv = generate_large_csv(100, 50);
    let rows = extract_section_data(&csv, "区間1").unwrap();
    assert_eq!(rows.len(), 50, "First section should have 50 rows");
    assert_eq!(rows[0].name, "NO.0");
    assert_eq!(rows[49].name, "NO.49");
}

#[test]
fn test_stress_extract_last_section() {
    let csv = generate_large_csv(100, 50);
    let rows = extract_section_data(&csv, "区間100").unwrap();
    assert_eq!(rows.len(), 50, "Last section should have 50 rows");
}

#[test]
fn test_stress_extract_middle_section() {
    let csv = generate_large_csv(100, 50);
    let rows = extract_section_data(&csv, "区間50").unwrap();
    assert_eq!(rows.len(), 50, "Middle section should have 50 rows");
}

#[test]
fn test_stress_extract_all_100_sections() {
    let csv = generate_large_csv(100, 50);
    let sections = get_available_sections(&csv, "data.csv");
    for section_name in &sections {
        let rows = extract_section_data(&csv, section_name).unwrap();
        assert_eq!(rows.len(), 50,
            "Section {} should have 50 rows, got {}", section_name, rows.len());
    }
}

#[test]
fn test_stress_sections_are_isolated() {
    // Each section's data must not leak into adjacent sections
    let csv = generate_large_csv(100, 50);

    let rows_1 = extract_section_data(&csv, "区間1").unwrap();
    let rows_2 = extract_section_data(&csv, "区間2").unwrap();

    // Both should have exactly 50 rows
    assert_eq!(rows_1.len(), 50);
    assert_eq!(rows_2.len(), 50);

    // First row of each should be NO.0, not carryover from previous section
    assert_eq!(rows_1[0].name, "NO.0");
    assert_eq!(rows_2[0].name, "NO.0");
}

#[test]
fn test_stress_width_values_preserved() {
    let csv = generate_large_csv(100, 50);

    // Headerless 4-col format: col0=name, col1=x, col2=wl, col3=wr
    // Station 25: wl = 3.0 + (25%5)*0.1 = 3.0, wr = 3.5 + (25%3)*0.1 = 3.6
    let rows = extract_section_data(&csv, "区間50").unwrap();
    let r25 = &rows[25];
    assert!((num(&r25.wl) - 3.0).abs() < 0.01, "wl={}", num(&r25.wl));
    assert!((num(&r25.wr) - 3.6).abs() < 0.01, "wr={}", num(&r25.wr));
}

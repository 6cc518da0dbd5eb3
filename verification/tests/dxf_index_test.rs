use road_drawing::dxf::{DxfLine, DxfText};
use road_drawing::dxf_index::DxfIndex;
use road_drawing::dxf_reader::DxfDocument;
use road_drawing::number::NumText;

fn n(s: &str) -> NumText {
    NumText::parse(s).unwrap()
}

fn num(v: &NumText) -> f64 {
    v.as_str().parse().unwrap()
}

fn sample_document() -> DxfDocument {
    DxfDocument {
        lines: vec![
            DxfLine::with_style(n("0.0"), n("0.0"), n("10000.0"), n("0.0"), 7, "中心線"),
            DxfLine::with_style(n("10000.0"), n("0.0"), n("20000.0"), n("0.0"), 7, "中心線"),
            DxfLine::with_style(n("0.0"), n("-3000.0"), n("0.0"), n("3000.0"), 3, "横断歩道"),
        ],
        texts: vec![
            DxfText::new(n("0.0"), n("500.0"), "No.0").layer("測点"),
            DxfText::new(n("10000.0"), n("500.0"), "No.1").layer("測点"),
            DxfText::new(n("20000.0"), n("500.0"), "No.2").layer("測点"),
            DxfText::new(n("5000.0"), n("500.0"), "0+5").layer("測点"),
            DxfText::new(n("100.0"), n("100.0"), "工事名").layer("タイトル"),
        ],
        circles: vec![],
        polylines: vec![],
    }
}

#[test]
fn test_get_station_coord_exact_match() {
    let doc = sample_document();
    let index = DxfIndex::from_document(&doc);

    let coord = index.get_station_coord("No.0").unwrap();
    assert!((num(&coord.0) - 0.0).abs() < 0.001);
    assert!((num(&coord.1) - 500.0).abs() < 0.001);
}

#[test]
fn test_get_station_coord_no1() {
    let doc = sample_document();
    let index = DxfIndex::from_document(&doc);

    let coord = index.get_station_coord("No.1").unwrap();
    assert!((num(&coord.0) - 10000.0).abs() < 0.001);
}

#[test]
fn test_get_station_coord_sub_station() {
    let doc = sample_document();
    let index = DxfIndex::from_document(&doc);

    let coord = index.get_station_coord("0+5").unwrap();
    assert!((num(&coord.0) - 5000.0).abs() < 0.001);
}

#[test]
fn test_get_station_coord_not_found() {
    let doc = sample_document();
    let index = DxfIndex::from_document(&doc);

    assert!(index.get_station_coord("No.99").is_none());
}

#[test]
fn test_get_station_coord_ignores_non_station_text() {
    let doc = sample_document();
    let index = DxfIndex::from_document(&doc);

    // "工事名" is a text but not a station
    let coord = index.get_station_coord("工事名");
    // This should find it since we search by text content
    assert!(coord.is_some());
    assert!((num(&coord.unwrap().0) - 100.0).abs() < 0.001);
}

#[test]
fn test_lines_on_layer_centerline() {
    let doc = sample_document();
    let index = DxfIndex::from_document(&doc);

    let center_lines = index.lines_on_layer("中心");
    assert_eq!(center_lines.len(), 2);
}

#[test]
fn test_lines_on_layer_crosswalk() {
    let doc = sample_document();
    let index = DxfIndex::from_document(&doc);

    let cw_lines = index.lines_on_layer("横断歩道");
    assert_eq!(cw_lines.len(), 1);
}

#[test]
fn test_lines_on_layer_no_match() {
    let doc = sample_document();
    let index = DxfIndex::from_document(&doc);

    let none = index.lines_on_layer("存在しないレイヤー");
    assert!(none.is_empty());
}

#[test]
fn test_texts_on_layer() {
    let doc = sample_document();
    let index = DxfIndex::from_document(&doc);

    let station_texts = index.texts_on_layer("測点");
    assert_eq!(station_texts.len(), 4); // No.0, No.1, No.2, 0+5
}

#[test]
fn test_unique_layers() {
    let doc = sample_document();
    let index = DxfIndex::from_document(&doc);

    let layers = index.layers();
    assert!(layers.contains(&"中心線".to_string()));
    assert!(layers.contains(&"横断歩道".to_string()));
    assert!(layers.contains(&"測点".to_string()));
    assert!(layers.contains(&"タイトル".to_string()));
    assert_eq!(layers.len(), 4);
}

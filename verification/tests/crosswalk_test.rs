use road_drawing::crosswalk::filter_by_layer;
use road_drawing::dxf::DxfLine;
use road_drawing::number::NumText;

fn num(s: &str) -> NumText {
    NumText::parse(s).unwrap()
}

#[test]
fn test_filter_by_layer_case_insensitive() {
    let lines = vec![
        DxfLine::with_style(num("0.0"), num("0.0"), num("100.0"), num("0.0"), 7, "中心線"),
        DxfLine::with_style(num("0.0"), num("0.0"), num("100.0"), num("0.0"), 7, "中心-道路"),
        DxfLine::with_style(num("0.0"), num("0.0"), num("100.0"), num("0.0"), 7, "ガードレール"),
    ];
    let filtered = filter_by_layer(&lines, "中心");
    assert_eq!(filtered.len(), 2);
}

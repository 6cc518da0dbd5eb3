use road_drawing::number::NumText;
use road_drawing::road_section::parse_road_section_csv;
use road_drawing::sections::decode_csv_bytes;

/// The value of a number literal.
fn num(n: &NumText) -> f64 {
    n.as_str().parse().unwrap()
}

#[test]
fn test_decode_utf8_csv() {
    let csv = "測点名,累積延長,左幅員,右幅員\nNo.1,0.0,2.5,2.5\n";
    let decoded = decode_csv_bytes(csv.as_bytes());
    assert_eq!(decoded, csv);
}

#[test]
fn test_decode_ascii_csv() {
    let csv = "name,x,wl,wr\nNo.1,0.0,2.5,2.5\n";
    let decoded = decode_csv_bytes(csv.as_bytes());
    assert_eq!(decoded, csv);
}

#[test]
fn test_decode_shift_jis_csv() {
    // "測点名" in Shift_JIS: 0x91AA 0x935F 0x96BC
    let sjis_bytes: Vec<u8> = {
        let (encoded, _, _) = encoding_rs::SHIFT_JIS.encode("測点名,延長\nNo.1,10.0\n");
        encoded.into_owned()
    };
    let decoded = decode_csv_bytes(&sjis_bytes);
    assert!(decoded.contains("測点名"), "Should decode Shift_JIS to UTF-8");
    assert!(decoded.contains("No.1"));
}

#[test]
fn test_decode_empty_bytes() {
    let decoded = decode_csv_bytes(b"");
    assert_eq!(decoded, "");
}

#[test]
fn test_decode_and_parse_utf8_csv() {
    let csv = "測点名,累積延長,左幅員,右幅員\nNo.0,0.0,2.5,2.5\nNo.1,20.0,3.0,2.0\n";
    let text = decode_csv_bytes(csv.as_bytes());
    let stations = parse_road_section_csv(&text).unwrap();
    assert_eq!(stations.len(), 2);
    assert_eq!(stations[0].name, "No.0");
    assert_eq!(num(&stations[1].wr), 2.0);
}

#[test]
fn test_decode_and_parse_shift_jis_csv() {
    let csv_utf8 = "測点名,累積延長,左幅員,右幅員\nNo.0,0.0,1.5,1.5\n";
    let (sjis_bytes, _, _) = encoding_rs::SHIFT_JIS.encode(csv_utf8);
    let text = decode_csv_bytes(&sjis_bytes);
    let stations = parse_road_section_csv(&text).unwrap();
    assert_eq!(stations.len(), 1);
    assert_eq!(num(&stations[0].wl), 1.5);
}

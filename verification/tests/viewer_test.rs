#[test]
fn test_dxf_text_font_size_clamped() {
    // Font size = height * scale, clamped to [8.0, 24.0]
    let heights_and_scales: Vec<(f64, f32)> = vec![
        (0.1, 0.5),   // tiny → clamped to 8.0
        (100.0, 10.0), // huge → clamped to 24.0
        (2.0, 5.0),   // normal → 10.0 within range
    ];
    for (h, s) in heights_and_scales {
        let font_size = (h as f32 * s).clamp(8.0, 24.0);
        assert!(font_size >= 8.0 && font_size <= 24.0,
            "Font size {font_size} out of range for h={h}, s={s}");
    }
}

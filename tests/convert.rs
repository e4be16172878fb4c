use trap_engine::convert::yuyv_to_rgb;

#[test]
fn neutral_chroma_gives_grey() {
    let buf = vec![0u8, 128, 17, 128, 200, 128, 255, 128];
    assert_eq!(yuyv_to_rgb(&buf), vec![0, 0, 0, 17, 17, 17, 200, 200, 200, 255, 255, 255]);
}

#[test]
fn chroma_terms_round_down() {
    // u = 200, v = 60: red -94, green term -24, blue 124.
    assert_eq!(yuyv_to_rgb(&[100, 200, 50, 60]), vec![6, 124, 224, 0, 74, 174]);
}

#[test]
fn results_are_clamped() {
    assert_eq!(yuyv_to_rgb(&[250, 255, 5, 255]), vec![255, 119, 255, 179, 0, 224]);
}

#[test]
fn partial_group_is_ignored() {
    assert_eq!(yuyv_to_rgb(&[9, 128, 9, 128, 1, 2]).len(), 6);
    assert!(yuyv_to_rgb(&[1, 2, 3]).is_empty());
}

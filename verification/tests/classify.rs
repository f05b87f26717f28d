use bsp2svg::is_ignored_texture;

#[test]
fn exact_names_are_ignored() {
    assert!(is_ignored_texture("clip"));
    assert!(is_ignored_texture("hint"));
    assert!(is_ignored_texture("trigger"));
    assert!(is_ignored_texture("163"));
}

#[test]
fn needles_match_anywhere() {
    assert!(is_ignored_texture("sky1"));
    assert!(is_ignored_texture("bluesky"));
    assert!(is_ignored_texture("light2"));
    assert!(is_ignored_texture("xtechy"));
    assert!(is_ignored_texture("redwood"));
    assert!(is_ignored_texture("wood"));
}

#[test]
fn ordinary_names_are_kept() {
    assert!(!is_ignored_texture("wall"));
    assert!(!is_ignored_texture("metal"));
    assert!(!is_ignored_texture(""));
    assert!(!is_ignored_texture("sk"));
    assert!(!is_ignored_texture("woo"));
}

#[test]
fn matching_is_case_sensitive() {
    assert!(!is_ignored_texture("CLIP"));
    assert!(!is_ignored_texture("SKY1"));
    assert!(!is_ignored_texture("Hint"));
}

#[test]
fn exact_set_needs_the_whole_name() {
    assert!(!is_ignored_texture("clips"));
    assert!(!is_ignored_texture("1632"));
    assert!(!is_ignored_texture("hin"));
}

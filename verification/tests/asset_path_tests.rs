use game_core::game_asset_path::{parse_path, GameAssetPath};

#[test]
fn core_shortcode_resolves_under_the_core_directory() {
    let p = GameAssetPath::new_data("::crops/example.ron");
    assert_eq!(p.path_relative(), "assets/core/data/crops/example.ron");
}

#[test]
fn named_root_resolves_under_its_own_directory() {
    let p = GameAssetPath::new_model("pack::barn.glb");
    assert_eq!(p.path_relative(), "assets/pack/models/barn.glb");
}

#[test]
fn plain_paths_pass_through_verbatim() {
    let p = GameAssetPath::new_sfx("boing.ogg");
    assert_eq!(p.path_relative(), "assets/boing.ogg");
}

#[test]
fn texture_paths_use_the_texture_directory() {
    assert_eq!(parse_path("::t.png", "textures"), "core/textures/t.png");
}

#[test]
fn the_first_separator_splits_the_shortcode() {
    // Only the first `::` separates root from path; later ones stay.
    assert_eq!(parse_path("a::b::c", "data"), "a/data/b::c");
}

#[test]
fn absolute_segments_replace_the_joined_path() {
    // Joining an absolute segment discards what came before it, as the
    // platform path buffer does.
    assert_eq!(parse_path("::/abs/file", "data"), "/abs/file");
    let p = GameAssetPath::new_data("::/abs/file");
    assert_eq!(p.path_relative(), "/abs/file");
}

#[test]
fn display_string_shows_shortcode_and_path() {
    let p = GameAssetPath::new_data("::x.ron");
    assert_eq!(p.display_string(), "[::x.ron](core/data/x.ron)");
}

#[test]
fn probe_results_are_recorded() {
    let p = GameAssetPath::new_data("::x.ron");
    assert!(!p.file_exists());
    let probed = p.probed(true);
    assert!(probed.file_exists());
    assert_eq!(probed.path_relative(), "assets/core/data/x.ron");
}

#[test]
fn clone_preserves_the_location() {
    let p = GameAssetPath::new_model("::m.glb").probed(true);
    let q = p.clone();
    assert_eq!(p, q);
}

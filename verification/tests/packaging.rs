use treefold::assets::{icon_svg, packaging_scripts};

#[test]
fn macos_assets_and_scripts_exist() {
    assert!(icon_svg().starts_with("<svg"));
    let scripts = packaging_scripts();
    assert!(scripts.iter().any(|s| s.ends_with("generate_macos_icon.sh")));
    assert!(scripts.iter().any(|s| s.ends_with("build_apple_silicon_app.sh")));
    assert!(scripts.iter().any(|s| s.ends_with("build_gui_apple_silicon_app.sh")));
    assert!(scripts.iter().any(|s| s.ends_with("check_gui_targets.sh")));
}

use vstd::prelude::*;

verus! {

/// The SVG text of the application icon.
pub open spec fn icon_svg_text() -> Seq<char> {
    "<svg xmlns=\"http://www.w3.org/2000/svg\" width=\"1024\" height=\"1024\" viewBox=\"0 0 1024 1024\">
  <rect x=\"64\" y=\"64\" width=\"896\" height=\"896\" rx=\"180\" fill=\"#1d2b36\"/>
  <rect x=\"160\" y=\"160\" width=\"420\" height=\"704\" rx=\"28\" fill=\"#e8743b\"/>
  <rect x=\"596\" y=\"160\" width=\"268\" height=\"420\" rx=\"28\" fill=\"#f2b134\"/>
  <rect x=\"596\" y=\"596\" width=\"128\" height=\"268\" rx=\"20\" fill=\"#4cb5ae\"/>
  <rect x=\"736\" y=\"596\" width=\"128\" height=\"268\" rx=\"20\" fill=\"#3d7cc9\"/>
  <path d=\"M370 860 V520 M370 640 L270 540 M370 600 L470 500\" stroke=\"#1d2b36\" stroke-width=\"34\" stroke-linecap=\"round\" fill=\"none\"/>
</svg>"@
}

/// The SVG source of the application icon: treemap tiles folded into a rounded square, with a
/// small tree drawn over the largest tile. The same drawing is kept in
/// `extras/assets/treefold-icon.svg`, from which the macOS icon set is rendered.
pub fn icon_svg() -> (s: &'static str)
    ensures
        s@ == icon_svg_text(),
{
    "<svg xmlns=\"http://www.w3.org/2000/svg\" width=\"1024\" height=\"1024\" viewBox=\"0 0 1024 1024\">
  <rect x=\"64\" y=\"64\" width=\"896\" height=\"896\" rx=\"180\" fill=\"#1d2b36\"/>
  <rect x=\"160\" y=\"160\" width=\"420\" height=\"704\" rx=\"28\" fill=\"#e8743b\"/>
  <rect x=\"596\" y=\"160\" width=\"268\" height=\"420\" rx=\"28\" fill=\"#f2b134\"/>
  <rect x=\"596\" y=\"596\" width=\"128\" height=\"268\" rx=\"20\" fill=\"#4cb5ae\"/>
  <rect x=\"736\" y=\"596\" width=\"128\" height=\"268\" rx=\"20\" fill=\"#3d7cc9\"/>
  <path d=\"M370 860 V520 M370 640 L270 540 M370 600 L470 500\" stroke=\"#1d2b36\" stroke-width=\"34\" stroke-linecap=\"round\" fill=\"none\"/>
</svg>"
}

/// The packaging scripts kept in `extras/scripts`: icon rendering, the Apple Silicon app
/// bundle, the bundle that starts in the graphical interface, and the cross-target check.
pub fn packaging_scripts() -> (names: Vec<&'static str>)
    ensures
        names@.len() == 4,
        names@[0]@ == "extras/scripts/generate_macos_icon.sh"@,
        names@[1]@ == "extras/scripts/build_apple_silicon_app.sh"@,
        names@[2]@ == "extras/scripts/build_gui_apple_silicon_app.sh"@,
        names@[3]@ == "extras/scripts/check_gui_targets.sh"@,
{
    let mut names: Vec<&'static str> = Vec::new();
    names.push("extras/scripts/generate_macos_icon.sh");
    names.push("extras/scripts/build_apple_silicon_app.sh");
    names.push("extras/scripts/build_gui_apple_silicon_app.sh");
    names.push("extras/scripts/check_gui_targets.sh");
    names
}

} // verus!

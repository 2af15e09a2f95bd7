use graphics_year2::Color;
use graphics_year2::Lighter;
use graphics_year2::LightingConfig;
use graphics_year2::Vector3D;
use graphics_year2::fixed::FP_ONE;

fn half_config() -> LightingConfig {
    // ambient a tenth, diffuse and specular one half
    let tenth = FP_ONE / 10;
    let half = FP_ONE / 2;
    LightingConfig {
        ka: (tenth, tenth, tenth),
        kd: (half, half, half),
        ks: (half, half, half),
    }
}

#[test]
fn head_on_light_saturates_white() {
    let white = Color::new(255, 255, 255);
    let lt = Lighter::from_sources(vec![(Vector3D::new(0, 0, 1), white)]);
    let c = lt.calculate(&Vector3D::new(0, 0, 1), &half_config());
    // ambient 25, diffuse 127, specular 127: saturates at 255
    assert_eq!(c, white);
}

#[test]
fn back_facing_normal_keeps_ambient_and_specular() {
    let white = Color::new(255, 255, 255);
    let lt = Lighter::from_sources(vec![(Vector3D::new(0, 0, 1), white)]);
    let c = lt.calculate(&Vector3D::new(0, 0, -1), &half_config());
    // the negative diffuse dot zeroes that part; the odd specular power
    // still reflects straight back at the viewer: 25 + 0 + 127
    assert_eq!(c, Color::new(152, 152, 152));
}

#[test]
fn no_sources_leaves_only_ambient() {
    let lt = Lighter::from_sources_ambient(Vec::new(), Color::new(200, 100, 0));
    let c = lt.calculate(&Vector3D::new(0, 0, 1), &half_config());
    // 200 * 0.0999... = 19, 100 * 0.0999... = 9
    assert_eq!(c, Color::new(19, 9, 0));
}

#[test]
fn add_source_and_set_ambient() {
    let mut lt = Lighter::from_sources_ambient(Vec::new(), Color::new(0, 0, 0));
    lt.set_ambient(Color::new(255, 255, 255));
    lt.add_source(Vector3D::new(0, 0, 1), Color::new(100, 0, 0));
    let c = lt.calculate(&Vector3D::new(0, 0, 1), &half_config());
    // ambient 25 each; source adds 100 * 0.5 twice on red only
    assert_eq!(c, Color::new(25 + 50 + 50, 25, 25));
}

use graphics_year2::Color;
use graphics_year2::EdgeMatrix;
use graphics_year2::Image;
use graphics_year2::Lighter;
use graphics_year2::LightingConfig;
use graphics_year2::PolygonMatrix;
use graphics_year2::Vector3D;
use graphics_year2::color_constants;
use graphics_year2::fixed::FP_ONE;
use graphics_year2::image::DEPTH_EMPTY;
use graphics_year2::image::ShadingMethod;

fn black() -> Color {
    Color::new(0, 0, 0)
}

#[test]
fn five_pixel_row_from_one_edge() {
    let mut img = Image::new("strip".to_string(), 5, 1);
    let mut edges = EdgeMatrix::empty();
    edges.add_edge((0, 0, 0), (4, 0, 0));
    img.draw_matrix(&edges, color_constants::red());
    for c in 0..5 {
        assert_eq!(img.get_pixel(0, c), color_constants::red());
    }
}

#[test]
fn plot_outside_is_skipped() {
    let mut img = Image::new("tiny".to_string(), 2, 2);
    img.plot(-1, 0, 0, color_constants::red());
    img.plot(0, 2, 0, color_constants::red());
    img.plot(5, 5, 0, color_constants::red());
    for r in 0..2 {
        for c in 0..2 {
            assert_eq!(img.get_pixel(r, c), black());
            assert_eq!(img.get_depth(r, c), DEPTH_EMPTY);
        }
    }
}

#[test]
fn depth_test_keeps_closer_color_both_orders() {
    let mut img = Image::new("depth".to_string(), 2, 2);
    img.plot(0, 0, 1, color_constants::red());
    img.plot(0, 0, 5, color_constants::blue());
    assert_eq!(img.get_pixel(0, 0), color_constants::blue());
    assert_eq!(img.get_depth(0, 0), 5);

    let mut img2 = Image::new("depth2".to_string(), 2, 2);
    img2.plot(0, 0, 5, color_constants::blue());
    img2.plot(0, 0, 1, color_constants::red());
    assert_eq!(img2.get_pixel(0, 0), color_constants::blue());
    assert_eq!(img2.get_depth(0, 0), 5);
}

#[test]
fn line_pixels_symmetric_on_blank_buffers() {
    let p0 = (1i32, 1i32, 0i64);
    let p1 = (7i32, 4i32, 0i64);
    let mut a = Image::new("fwd".to_string(), 10, 10);
    let mut b = Image::new("bwd".to_string(), 10, 10);
    a.draw_line(p0, p1, color_constants::green());
    b.draw_line(p1, p0, color_constants::green());
    for r in 0..10 {
        for c in 0..10 {
            assert_eq!(a.get_pixel(r, c), b.get_pixel(r, c));
        }
    }
    // the vertical case takes the other code path
    let mut av = Image::new("fwdv".to_string(), 10, 10);
    let mut bv = Image::new("bwdv".to_string(), 10, 10);
    av.draw_line((3, 1, 0), (3, 8, 0), color_constants::cyan());
    bv.draw_line((3, 8, 0), (3, 1, 0), color_constants::cyan());
    for r in 0..10 {
        for c in 0..10 {
            assert_eq!(av.get_pixel(r, c), bv.get_pixel(r, c));
        }
    }
}

#[test]
fn downsample_of_solid_color_is_that_color() {
    let mut img = Image::new("solid".to_string(), 8, 8);
    let paint = Color::new(10, 20, 30);
    for y in 0..8 {
        for x in 0..8 {
            img.plot(x, y, 0, paint);
        }
    }
    let out = img.downsample();
    assert_eq!(out.get_width(), 2);
    assert_eq!(out.get_height(), 2);
    for r in 0..2 {
        for c in 0..2 {
            assert_eq!(out.get_pixel(r, c), paint);
        }
    }
}

#[test]
fn downsample_averages_blocks_truncating() {
    let mut img = Image::new("avg".to_string(), 4, 4);
    // fifteen black pixels and one pure red: the mean red channel is
    // 255 / 16, truncated
    img.plot(0, 0, 0, color_constants::red());
    let out = img.downsample();
    assert_eq!(out.get_pixel(0, 0), Color::new(15, 0, 0));
}

#[test]
fn flat_square_lit_head_on() {
    let mut img = Image::new("square".to_string(), 8, 8);
    let white = color_constants::white();
    let lighter = Lighter::from_sources(vec![(Vector3D::new(0, 0, 1), white)]);
    *img.get_lighter() = lighter.clone();
    let tenth = FP_ONE / 10;
    let half = FP_ONE / 2;
    let conf = LightingConfig {
        ka: (tenth, tenth, tenth),
        kd: (half, half, half),
        ks: (half, half, half),
    };

    let mut polys = PolygonMatrix::empty();
    polys.add_triangle((0, 0, 0), (1, 0, 0), (1, 1, 0));
    polys.add_triangle((0, 0, 0), (1, 1, 0), (0, 1, 0));

    img.draw_polygons(&polys, &conf, ShadingMethod::Flat);

    let expected = lighter.calculate(&Vector3D::new(0, 0, 1), &conf);
    // the supersampled footprint covers rows and columns 0..=4; check an
    // interior pixel and an untouched one
    assert_eq!(img.get_pixel(1, 1), expected);
    assert_eq!(img.get_pixel(7, 7), black());
    assert_eq!(img.get_depth(7, 7), DEPTH_EMPTY);
}

#[test]
fn phong_square_paints_footprint() {
    let mut img = Image::new("phong".to_string(), 8, 8);
    let white = color_constants::white();
    *img.get_lighter() = Lighter::from_sources(vec![(Vector3D::new(0, 0, 1), white)]);
    let tenth = FP_ONE / 10;
    let half = FP_ONE / 2;
    let conf = LightingConfig {
        ka: (tenth, tenth, tenth),
        kd: (half, half, half),
        ks: (half, half, half),
    };
    let mut polys = PolygonMatrix::empty();
    polys.add_triangle((0, 0, 0), (1, 0, 0), (1, 1, 0));
    polys.add_triangle((0, 0, 0), (1, 1, 0), (0, 1, 0));
    img.draw_polygons(&polys, &conf, ShadingMethod::Phong);
    // every vertex normal is the up unit, so the interpolated normal is
    // the up unit everywhere inside the footprint
    let expected = Lighter::from_sources(vec![(Vector3D::new(0, 0, 1), white)]).calculate(
        &Vector3D::new(0, 0, FP_ONE),
        &conf,
    );
    assert_eq!(img.get_pixel(1, 1), expected);
    assert_eq!(img.get_pixel(7, 7), black());
}

#[test]
fn back_face_is_culled() {
    let mut img = Image::new("cull".to_string(), 8, 8);
    let conf = LightingConfig {
        ka: (FP_ONE, FP_ONE, FP_ONE),
        kd: (0, 0, 0),
        ks: (0, 0, 0),
    };
    let mut polys = PolygonMatrix::empty();
    // clockwise winding: the face normal points away from the camera
    polys.add_triangle((0, 0, 0), (1, 1, 0), (1, 0, 0));
    img.draw_polygons(&polys, &conf, ShadingMethod::Flat);
    for r in 0..8 {
        for c in 0..8 {
            assert_eq!(img.get_pixel(r, c), black());
        }
    }
}

#[test]
fn clears_reset_buffers() {
    let mut img = Image::new("clr".to_string(), 3, 3);
    img.plot(1, 1, 7, color_constants::yellow());
    img.clear_shapes_only();
    assert_eq!(img.get_pixel(1, 1), black());
    assert_eq!(img.get_depth(1, 1), DEPTH_EMPTY);
    img.plot(0, 0, 1, color_constants::red());
    img.clear();
    assert_eq!(img.get_pixel(0, 0), black());
}

#[test]
fn pixel_rows_order_and_flip() {
    let mut img = Image::new("rows".to_string(), 2, 2);
    img.plot(0, 0, 0, color_constants::red());
    let rows = img.pixel_rows();
    // bottom row first by default: row 1 (black) then row 0 (red first)
    assert_eq!(rows.len(), 4);
    assert_eq!(rows[0], black());
    assert_eq!(rows[2], color_constants::red());

    let mut flipped = Image::new_flip("rowsf".to_string(), true, 2, 2);
    flipped.plot(0, 0, 0, color_constants::red());
    let rows2 = flipped.pixel_rows();
    assert_eq!(rows2[0], color_constants::red());
    assert_eq!(rows2[2], black());
}

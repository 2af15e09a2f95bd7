use graphics_year2::Const2D;
use graphics_year2::Dynamic2D;
use graphics_year2::EdgeMatrix;
use graphics_year2::Image;
use graphics_year2::color::Color;
use graphics_year2::color_constants;
use rand::prelude::SliceRandom;

fn rotate(
    (x, y): (i32, i32),
    (x_center, y_center): (i32, i32),
    angle_rads: f32,
) -> (i32, i32, i64) {
    (
        ((x - x_center) as f32 * angle_rads.cos() - (y - y_center) as f32 * angle_rads.sin())
            as i32 + x_center,
        ((x - x_center) as f32 * angle_rads.sin() + (y - y_center) as f32 * angle_rads.cos())
            as i32 + y_center,
        0,
    )
}

fn amongus(
    img: &mut Image,
    (x, y): (i32, i32),
    (width, height): (i32, i32),
    angle_rads: f32,
    iters: usize,
    total_iters: usize,
) {
    if iters == 0 {
        return;
    }

    let color_lerp = iters as f32 / total_iters as f32 * 255f32;
    let brightness_lerp = 1f32 - (iters as f32 / total_iters as f32);
    let color = Color::new(
        (brightness_lerp * (255f32 - color_lerp)) as u8,
        (brightness_lerp * color_lerp) as u8,
        0,
    );
    let lerped_cyan = Color::new(
        0,
        (brightness_lerp * 255f32) as u8,
        (brightness_lerp * 255f32) as u8,
    );
    // Upper shell of the astronaut
    img.draw_line(
        rotate((x - width / 2, y - height / 2), (x, y), angle_rads),
        rotate((x - width / 2, y + height / 2), (x, y), angle_rads),
        color,
    );
    img.draw_line(
        rotate((x - width / 2, y + height / 2), (x, y), angle_rads),
        rotate((x + width / 2, y + height / 2), (x, y), angle_rads),
        color,
    );
    img.draw_line(
        rotate((x + width / 2, y - height / 2), (x, y), angle_rads),
        rotate((x + width / 2, y + height / 2), (x, y), angle_rads),
        color,
    );

    // Legs
    img.draw_line(
        rotate((x - width / 2, y - height / 2), (x, y), angle_rads),
        rotate((x - width / 6, y - height / 2), (x, y), angle_rads),
        color,
    );
    img.draw_line(
        rotate((x - width / 6, y - height / 2), (x, y), angle_rads),
        rotate((x - width / 6, y - height / 4), (x, y), angle_rads),
        color,
    );
    img.draw_line(
        rotate((x - width / 6, y - height / 4), (x, y), angle_rads),
        rotate((x + width / 6, y - height / 4), (x, y), angle_rads),
        color,
    );
    img.draw_line(
        rotate((x + width / 6, y - height / 2), (x, y), angle_rads),
        rotate((x + width / 6, y - height / 4), (x, y), angle_rads),
        color,
    );
    img.draw_line(
        rotate((x + width / 6, y - height / 2), (x, y), angle_rads),
        rotate((x + width / 2, y - height / 2), (x, y), angle_rads),
        color,
    );

    // Backpack
    img.draw_line(
        rotate((x + width / 2, y + 3 * height / 10), (x, y), angle_rads),
        rotate((x + 4 * width / 5, y + 3 * height / 10), (x, y), angle_rads),
        color,
    );
    img.draw_line(
        rotate((x + width / 2, y - height / 5), (x, y), angle_rads),
        rotate((x + 4 * width / 5, y - height / 5), (x, y), angle_rads),
        color,
    );
    img.draw_line(
        rotate((x + 4 * width / 5, y - height / 5), (x, y), angle_rads),
        rotate((x + 4 * width / 5, y + 3 * height / 10), (x, y), angle_rads),
        color,
    );

    // Visor
    img.draw_line(
        rotate((x - 2 * width / 5, y + 2 * height / 5), (x, y), angle_rads),
        rotate((x + 2 * width / 5, y + 2 * height / 5), (x, y), angle_rads),
        lerped_cyan,
    );
    img.draw_line(
        rotate((x - 2 * width / 5, y + height / 5), (x, y), angle_rads),
        rotate((x + 2 * width / 5, y + height / 5), (x, y), angle_rads),
        lerped_cyan,
    );
    img.draw_line(
        rotate((x - 2 * width / 5, y + height / 5), (x, y), angle_rads),
        rotate((x - 2 * width / 5, y + 2 * height / 5), (x, y), angle_rads),
        lerped_cyan,
    );
    img.draw_line(
        rotate((x + 2 * width / 5, y + height / 5), (x, y), angle_rads),
        rotate((x + 2 * width / 5, y + 2 * height / 5), (x, y), angle_rads),
        lerped_cyan,
    );

    amongus(
        img,
        (x, y),
        (
            width - width / (iters + 1) as i32,
            height - height / (iters + 1) as i32,
        ),
        angle_rads + std::f32::consts::PI / (total_iters as f32),
        iters - 1,
        total_iters,
    );
}

#[test]
fn octant1() {
    let mut blank = Image::new("octant1".to_string(), 500, 500);
    blank.draw_line((5, 10, 0), (450, 250, 0), color_constants::white());
    assert_eq!(blank.get_pixel(10, 5), color_constants::white());
    assert_eq!(blank.get_pixel(250, 450), color_constants::white());
}

#[test]
fn all_octants() {
    let mut blank = Image::new("octant_all".to_string(), 500, 500);
    blank.draw_line((5, 10, 0), (450, 250, 0), color_constants::white()); // octant 1
    blank.draw_line((5, 10, 0), (250, 450, 0), color_constants::white()); // octant 2
    blank.draw_line((400, 250, 0), (5, 400, 0), color_constants::white()); // octant 7
    blank.draw_line((5, 400, 0), (400, 250, 0), color_constants::white()); // octant 7 duplicate backwards
    blank.draw_line((250, 5, 0), (5, 400, 0), color_constants::white()); // octant 8
    assert_eq!(blank.get_pixel(10, 5), color_constants::white());
    assert_eq!(blank.get_pixel(400, 5), color_constants::white());
}

#[test]
fn spiral_amongla() {
    let mut image = Image::new("spiral_amongla".to_string(), 500, 500);
    amongus(&mut image, (250, 250), (225, 400), std::f32::consts::PI, 25, 25);
}

#[test]
fn dw_test() {
    let xres: usize = 500;
    let yres: usize = 500;
    let mut img = Image::new("dw-test-line".to_string(), 500, 500);

    let xresint = xres as i32;
    let yresint = yres as i32;
    // 1 and 5
    img.draw_line((0, 0, 0), (xresint - 1, yresint - 1, 0), color_constants::green());
    img.draw_line((0, 0, 0), (xresint - 1, yresint / 2, 0), color_constants::green());
    img.draw_line((xresint - 1, yresint - 1, 0), (0, yresint / 2, 0), color_constants::green());

    // 8 and 4
    img.draw_line((0, yresint - 1, 0), (xresint - 1, 0, 0), color_constants::cyan());
    img.draw_line((0, yresint - 1, 0), (xresint - 1, yresint / 2, 0), color_constants::cyan());
    img.draw_line((xresint - 1, 0, 0), (0, yresint / 2, 0), color_constants::cyan());

    // 2 and 6
    img.draw_line((0, 0, 0), (xresint / 2, yresint - 1, 0), color_constants::red());
    img.draw_line((xresint - 1, yresint - 1, 0), (xresint / 2, 0, 0), color_constants::red());

    // 7 and 3
    img.draw_line((0, yresint - 1, 0), (xresint / 2, 0, 0), color_constants::purple());
    img.draw_line((xresint - 1, 0, 0), (xresint / 2, yresint - 1, 0), color_constants::purple());

    // horizontal and vertical
    img.draw_line((0, yresint / 2, 0), (xresint - 1, yresint / 2, 0), color_constants::yellow());
    img.draw_line((xresint / 2, 0, 0), (xresint / 2, yresint - 1, 0), color_constants::yellow());

    assert_eq!(img.get_pixel(0, 0), color_constants::green());
}

#[test]
fn btree() {
    let mut img = Image::new_flip("btree".to_string(), true, 500, 500);
    let mut edges = EdgeMatrix::empty();

    let mut points: Vec<(f64, f64)> = Vec::new();
    (0..30).for_each(|_| {
        points.push((rand::random::<f64>() * 500.0, rand::random::<f64>() * 500.0))
    });

    for point in &points {
        for other in
            (&points).choose_multiple(&mut rand::thread_rng(), rand::random::<usize>() % points.len())
        {
            edges.add_edge(
                (point.0 as i64, point.1 as i64, 0),
                (other.0 as i64, other.1 as i64, 0),
            );
        }
    }

    edges.add_edge((10, 10, 0), (10, 40, 0));
    edges.add_edge((10, 20, 0), (20, 30, 0));
    edges.add_edge((10, 20, 0), (20, 10, 0));

    edges.add_edge((0, 45, 0), (500, 45, 0));
    for lerp in 1..10 {
        let x = lerp as i64 * 50;
        edges.add_edge((x, 45, 0), (x, 0, 0));
    }
    img.draw_matrix(&edges, color_constants::red());
    assert_eq!(img.get_pixel(45, 100), color_constants::red());
}

#[test]
fn dwmatrix() {
    let mut img = Image::new_flip("bob".to_string(), true, 500, 500);
    let mut edges = EdgeMatrix::empty();

    let mut m2 = EdgeMatrix::empty();
    m2.add_edge((1, 2, 3), (4, 5, 6));

    let ident4: Const2D<i64, 4, 4> = Const2D::ident();
    let m1 = EdgeMatrix::from(&ident4);
    assert_eq!(m1.point(0), (1, 0, 0));

    // multiplying by the identity leaves the points alone
    let prod = Dynamic2D::from(&ident4).matmul(&Dynamic2D::from(&m2.to_grid()));
    let m2b = EdgeMatrix::from(&prod);
    assert_eq!(m2b.point(0), (1, 2, 3));
    assert_eq!(m2b.point(1), (4, 5, 6));

    edges.add_edge((50, 450, 0), (100, 450, 0));
    edges.add_edge((50, 450, 0), (50, 400, 0));
    edges.add_edge((100, 450, 0), (100, 400, 0));
    edges.add_edge((100, 400, 0), (50, 400, 0));

    edges.add_edge((200, 450, 0), (250, 450, 0));
    edges.add_edge((200, 450, 0), (200, 400, 0));
    edges.add_edge((250, 450, 0), (250, 400, 0));
    edges.add_edge((250, 400, 0), (200, 400, 0));

    edges.add_edge((150, 400, 0), (130, 360, 0));
    edges.add_edge((150, 400, 0), (170, 360, 0));
    edges.add_edge((130, 360, 0), (170, 360, 0));

    edges.add_edge((100, 340, 0), (200, 340, 0));
    edges.add_edge((100, 320, 0), (200, 320, 0));
    edges.add_edge((100, 340, 0), (100, 320, 0));
    edges.add_edge((200, 340, 0), (200, 320, 0));

    img.draw_matrix(&edges, color_constants::cyan());
    assert_eq!(img.get_pixel(450, 75), color_constants::cyan());
}

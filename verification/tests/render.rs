use termrast::fixed::{Fx, SCALE};
use termrast::render_objects::{Colour, Camera};
use termrast::device::Device;

fn grey_device(w: usize, h: usize) -> Device {
    Device::new(w, h, Camera::new(), Vec::new(), Colour::Grey(Fx { raw: 0 }))
}

fn alpha_at(d: &Device, x: usize, y: usize) -> i64 {
    match d.pixels[y * d.dimensions.0 + x] {
        Colour::Grey(a) => a.raw,
        Colour::Rgba(_, _, _, a) => a.raw,
    }
}

#[test]
fn device_new_clamps_and_fills() {
    let d = Device::new(100000, 3, Camera::new(), Vec::new(), Colour::Grey(Fx { raw: 9 }));
    assert_eq!(d.dimensions.0, 32768);
    assert_eq!(d.dimensions.1, 3);
    assert_eq!(d.pixels.len(), 32768 * 3);
    assert_eq!(d.background, Colour::Grey(Fx { raw: 9 }));
    assert!(d.pixels.iter().all(|c| *c == Colour::Grey(Fx { raw: 9 })));
}

#[test]
fn draw_point_sets_one_cell_and_drops_out_of_bounds() {
    let mut d = grey_device(4, 4);
    let red = Colour::Rgba(Fx { raw: SCALE }, Fx { raw: 0 }, Fx { raw: 0 }, Fx { raw: SCALE });
    d.draw_point(2, 1, red);
    assert_eq!(d.pixels[1 * 4 + 2], red);
    let before = d.pixels.clone();
    d.draw_point(4, 0, red);
    d.draw_point(0, 4, red);
    assert_eq!(d.pixels, before);
}

#[test]
fn clear_resets_to_background() {
    let mut d = grey_device(3, 3);
    d.draw_point(1, 1, Colour::Grey(Fx { raw: SCALE }));
    d.clear();
    assert!(d.pixels.iter().all(|c| *c == Colour::Grey(Fx { raw: 0 })));
}

#[test]
fn fast_line_horizontal_covers_exactly_its_cells() {
    let mut d = grey_device(8, 8);
    let ink = Colour::Grey(Fx { raw: SCALE });
    d.draw_line_fast((0, 0), (5, 0), ink);
    for x in 0..8 {
        for y in 0..8 {
            if y == 0 && x <= 5 {
                assert_eq!(alpha_at(&d, x, y), SCALE, "cell ({x},{y})");
            } else {
                assert_eq!(alpha_at(&d, x, y), 0, "cell ({x},{y})");
            }
        }
    }
}

#[test]
fn fast_line_diagonal_covers_exactly_the_diagonal() {
    let mut d = grey_device(8, 8);
    let ink = Colour::Grey(Fx { raw: SCALE });
    d.draw_line_fast((0, 0), (3, 3), ink);
    for x in 0..8 {
        for y in 0..8 {
            if x == y && x <= 3 {
                assert_eq!(alpha_at(&d, x, y), SCALE, "cell ({x},{y})");
            } else {
                assert_eq!(alpha_at(&d, x, y), 0, "cell ({x},{y})");
            }
        }
    }
}

#[test]
fn fast_line_is_direction_independent() {
    let ink = Colour::Grey(Fx { raw: SCALE });
    let mut a = grey_device(8, 8);
    let mut b = grey_device(8, 8);
    a.draw_line_fast((1, 2), (6, 5), ink);
    b.draw_line_fast((6, 5), (1, 2), ink);
    assert_eq!(a.pixels, b.pixels);
}

#[test]
fn antialiased_line_splits_coverage_into_complementary_pairs() {
    let mut d = grey_device(8, 8);
    let half = SCALE / 2;
    // A horizontal line along y = 0.5: every step straddles rows 0 and 1.
    d.draw_line_antialiased(
        (Fx { raw: half }, Fx { raw: half }),
        (Fx { raw: 4 * SCALE + half }, Fx { raw: half }),
        Colour::Grey(Fx { raw: SCALE }),
    );
    // Interior columns 2..5 and both endpoints (whose gap is a full cell)
    // split one cell of coverage between the two straddled rows.
    for x in 1..5 {
        let top = alpha_at(&d, x, 0);
        let bottom = alpha_at(&d, x, 1);
        assert_eq!(top, half, "column {x}");
        assert_eq!(bottom, half, "column {x}");
        assert_eq!(top + bottom, SCALE, "column {x}");
    }
}

#[test]
fn antialiased_line_weights_coverage_by_rgba_alpha() {
    let mut d = grey_device(8, 8);
    let half = SCALE / 2;
    // The same half-cell line, but with an RGBA base colour of alpha one
    // half: every emitted intensity is the coverage scaled by the alpha.
    d.draw_line_antialiased(
        (Fx { raw: half }, Fx { raw: half }),
        (Fx { raw: 4 * SCALE + half }, Fx { raw: half }),
        Colour::Rgba(Fx { raw: SCALE }, Fx { raw: 0 }, Fx { raw: 0 }, Fx { raw: half }),
    );
    for x in 1..5 {
        assert_eq!(alpha_at(&d, x, 0), SCALE / 4, "column {x}");
        assert_eq!(alpha_at(&d, x, 1), SCALE / 4, "column {x}");
    }
}

#[test]
fn triangle_fill_overwrites_stroke_where_they_overlap() {
    let mut d = grey_device(8, 8);
    let half = SCALE / 2;
    let ink = Colour::Grey(Fx { raw: SCALE });
    // A right triangle with half-cell vertices: the bottom edge's stroke
    // straddles rows 0 and 1 with half coverage each.
    d.draw_triangle(
        (Fx { raw: half }, Fx { raw: half }),
        (Fx { raw: 6 * SCALE + half }, Fx { raw: half }),
        (Fx { raw: half }, Fx { raw: 6 * SCALE + half }),
        ink,
        true,
    );
    // Row 1 lies inside the fill: the fill ran after the stroke and
    // overwrote the stroke's half coverage with the full colour.
    assert_eq!(alpha_at(&d, 3, 1), SCALE);
    // Row 0 lies outside the fill: the stroke's half coverage survives.
    assert_eq!(alpha_at(&d, 3, 0), SCALE / 2);
}

#[test]
fn triangle_fill_covers_exactly_the_inclusive_half_square() {
    let mut d = grey_device(8, 8);
    let ink = Colour::Grey(Fx { raw: SCALE });
    d.fill_triangle(
        (Fx::of_int(0), Fx::of_int(0)),
        (Fx::of_int(4), Fx::of_int(0)),
        (Fx::of_int(0), Fx::of_int(4)),
        ink,
    );
    for x in 0..8i64 {
        for y in 0..8i64 {
            let expected = x + y <= 4;
            let painted = alpha_at(&d, x as usize, y as usize) == SCALE;
            assert_eq!(painted, expected, "cell ({x},{y})");
        }
    }
}

#[test]
fn degenerate_triangle_fills_nothing() {
    let mut d = grey_device(8, 8);
    let before = d.pixels.clone();
    d.fill_triangle(
        (Fx::of_int(0), Fx::of_int(0)),
        (Fx::of_int(2), Fx::of_int(2)),
        (Fx::of_int(4), Fx::of_int(4)),
        Colour::Grey(Fx { raw: SCALE }),
    );
    assert_eq!(d.pixels, before);
}

#[test]
fn glyph_bands_quantize_intensity() {
    assert_eq!(Device::colour_to_char(Colour::Grey(Fx { raw: 0 })), '-');
    assert_eq!(Device::colour_to_char(Colour::Grey(Fx { raw: 13107 })), '-');
    assert_eq!(Device::colour_to_char(Colour::Grey(Fx { raw: 13108 })), '+');
    assert_eq!(Device::colour_to_char(Colour::Grey(Fx { raw: 26214 })), '+');
    assert_eq!(Device::colour_to_char(Colour::Grey(Fx { raw: 26215 })), '&');
    assert_eq!(Device::colour_to_char(Colour::Grey(Fx { raw: 39321 })), '&');
    assert_eq!(Device::colour_to_char(Colour::Grey(Fx { raw: 39322 })), '#');
    assert_eq!(Device::colour_to_char(Colour::Grey(Fx { raw: 52428 })), '#');
    assert_eq!(Device::colour_to_char(Colour::Grey(Fx { raw: 52429 })), '\u{2588}');
    assert_eq!(Device::colour_to_char(Colour::Rgba(
        Fx { raw: 0 }, Fx { raw: 0 }, Fx { raw: 0 }, Fx { raw: SCALE })), '\u{2588}');
}

#[test]
fn clear_screen_is_the_ansi_erase_sequence() {
    let d = grey_device(2, 2);
    let s: String = d.clear_screen().into_iter().collect();
    assert_eq!(s, "\u{1b}[2J");
}

#[test]
fn present_emits_cursor_moves_and_glyphs() {
    let mut d = grey_device(2, 1);
    d.draw_point(1, 0, Colour::Grey(Fx { raw: SCALE }));
    let s: String = d.present().into_iter().collect();
    assert_eq!(s, "\u{1b}[1;1H-\u{1b}[1;2H\u{2588}");
}

#[test]
fn camera_over_origin_projects_origin_to_viewport_centre() {
    let camera = Camera::from(
        termrast::structures::Vector::position(3, 4, 5),
        termrast::structures::Vector::position(0, 0, 0),
        termrast::structures::Vector::direction(0, 1, 0),
    );
    let view = camera.view_matrix();
    let proj = termrast::structures::Matrix::perspective(
        Fx { raw: SCALE }, Fx::of_int(1), Fx::of_int(1), Fx::of_int(100));
    let mvp = proj.mat_mul(&view);
    let t = mvp.transform(termrast::structures::Vector::position(0, 0, 0));
    assert!(t.w.raw > 0, "origin must lie in front of the camera");
    let nx = termrast::fixed::fx_div(t.x, t.w);
    let ny = termrast::fixed::fx_div(t.y, t.w);
    // Normalized device coordinates of the origin sit at the centre,
    // within rounding: mapping to an 80x24 viewport lands mid-screen.
    let sx = termrast::fixed::fx_mul(
        termrast::fixed::fx_add(nx, Fx { raw: SCALE }), Fx::of_int(40));
    let sy = termrast::fixed::fx_mul(
        termrast::fixed::fx_add(ny, Fx { raw: SCALE }), Fx::of_int(12));
    let cx = termrast::fixed::fx_round_int(sx);
    let cy = termrast::fixed::fx_round_int(sy);
    assert!((cx - 40).abs() <= 1, "screen x {cx}");
    assert!((cy - 12).abs() <= 1, "screen y {cy}");
}

#[test]
fn render_paints_a_visible_triangle() {
    let camera = Camera::from(
        termrast::structures::Vector::position(3, 4, 5),
        termrast::structures::Vector::position(0, 0, 0),
        termrast::structures::Vector::direction(0, 1, 0),
    );
    let text = b"o tri\nv -1 0 0\nv 1 0 0\nv 0 1 0\nvn 0 0 1\nf 1//1 2//1 3//1\n";
    let mesh = termrast::render_objects::Mesh::from_text(
        text,
        termrast::structures::Vector::position(0, 0, 0),
        termrast::structures::Vector::direction(0, 0, 0),
    ).expect("mesh parses");
    let mut d = Device::new(40, 20, camera, vec![mesh], Colour::Grey(Fx { raw: 0 }));
    d.render();
    let touched = d.pixels.iter().filter(|c| **c != Colour::Grey(Fx { raw: 0 })).count();
    assert!(touched > 0, "rendering a front-facing triangle paints cells");
}

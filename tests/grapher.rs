use complex_grapher::{Grapher, GrapherError, Rgb8, AXIS_TICK_SPACING, MAX_SIDE};

const BLACK: Rgb8 = (0, 0, 0);

fn cells(g: &Grapher) -> Vec<Rgb8> {
    let mut v = Vec::new();
    for y in 0..g.height() {
        for x in 0..g.width() {
            v.push(g.get_pixel(x, y));
        }
    }
    v
}

/// A colour that records the pixel offset it was computed for.
fn offset_colour(x: i32, y: i32) -> Rgb8 {
    ((x + 100) as u8, (y + 100) as u8, 7)
}

#[test]
fn new_rejects_a_zero_side() {
    assert_eq!(Grapher::new(0, 10, false).err(), Some(GrapherError::ZeroSize));
    assert_eq!(Grapher::new(10, 0, true).err(), Some(GrapherError::ZeroSize));
    assert_eq!(Grapher::new(0, 0, false).err(), Some(GrapherError::ZeroSize));
}

#[test]
fn new_rejects_an_oversized_side() {
    assert_eq!(Grapher::new(MAX_SIDE + 1, 1, false).err(), Some(GrapherError::TooLarge));
    assert_eq!(Grapher::new(1, u32::MAX, false).err(), Some(GrapherError::TooLarge));
}

#[test]
fn new_canvas_is_black() {
    let g = Grapher::new(7, 5, true).unwrap();
    assert_eq!(g.width(), 7);
    assert_eq!(g.height(), 5);
    assert!(g.axis_enabled());
    assert!(cells(&g).iter().all(|c| *c == BLACK));
}

#[test]
fn default_canvas_is_white_100_by_100() {
    let g = Grapher::default();
    assert_eq!(g.width(), 100);
    assert_eq!(g.height(), 100);
    assert!(!g.axis_enabled());
    assert_eq!(cells(&g).len(), 10_000);
    assert!(cells(&g).iter().all(|c| *c == (255, 255, 255)));
}

#[test]
fn half_sides_round_down() {
    let g = Grapher::new(7, 100, false).unwrap();
    assert_eq!(g.width_frac_2(), 3);
    assert_eq!(g.height_frac_2(), 50);
}

#[test]
fn map_point_flips_and_shifts() {
    let g = Grapher::new(100, 100, false).unwrap();
    assert_eq!(g.map_point(0, 0), (50, 50));
    assert_eq!(g.map_point(-50, 50), (0, 0));
    assert_eq!(g.map_point(49, -49), (99, 99));
    assert_eq!(g.map_point(49, 0), (99, 50));
    assert_eq!(g.map_point(3, 4), (53, 46));
}

#[test]
fn map_point_on_odd_sides() {
    let g = Grapher::new(5, 3, false).unwrap();
    assert_eq!(g.map_point(-2, 1), (0, 0));
    assert_eq!(g.map_point(2, -1), (4, 2));
    assert_eq!(g.map_point(0, 0), (2, 1));
}

#[test]
fn put_pixel_changes_one_cell() {
    let mut g = Grapher::new(4, 3, false).unwrap();
    g.put_pixel(3, 2, (10, 20, 30));
    assert_eq!(g.get_pixel(3, 2), (10, 20, 30));
    assert_eq!(g.get_pixel(2, 2), BLACK);
    assert_eq!(g.get_pixel(3, 1), BLACK);
    let painted = cells(&g).iter().filter(|c| **c != BLACK).count();
    assert_eq!(painted, 1);
}

#[test]
fn toggle_axes_flips_the_flag_only() {
    let mut g = Grapher::default();
    let before = cells(&g);
    g.toggle_axes();
    assert!(g.axis_enabled());
    g.toggle_axes();
    assert!(!g.axis_enabled());
    assert_eq!(cells(&g), before);
}

#[test]
fn draw_axes_marks_lines_and_ticks() {
    let mut g = Grapher::default();
    g.draw_axes(5);
    let white = (255, 255, 255);
    // vertical axis and its ticks
    assert_eq!(g.get_pixel(50, 0), BLACK);
    assert_eq!(g.get_pixel(50, 99), BLACK);
    assert_eq!(g.get_pixel(51, 0), BLACK);
    assert_eq!(g.get_pixel(49, 95), BLACK);
    assert_eq!(g.get_pixel(51, 1), white);
    assert_eq!(g.get_pixel(49, 97), white);
    // horizontal axis and its ticks
    assert_eq!(g.get_pixel(0, 50), BLACK);
    assert_eq!(g.get_pixel(99, 50), BLACK);
    assert_eq!(g.get_pixel(0, 51), BLACK);
    assert_eq!(g.get_pixel(10, 49), BLACK);
    assert_eq!(g.get_pixel(1, 51), white);
    assert_eq!(g.get_pixel(12, 49), white);
    // away from the axes
    assert_eq!(g.get_pixel(20, 20), white);
    assert_eq!(g.get_pixel(52, 52), white);
}

#[test]
fn draw_axes_ticks_follow_the_middle_row_on_wide_canvases() {
    let grey = (9, 9, 9);
    let mut g = Grapher::new(40, 10, false).unwrap();
    g.update_plot(|_, _| grey);
    g.draw_axes(10);
    assert_eq!(g.get_pixel(0, 5), BLACK);
    assert_eq!(g.get_pixel(0, 4), BLACK);
    assert_eq!(g.get_pixel(0, 6), BLACK);
    assert_eq!(g.get_pixel(30, 6), BLACK);
    assert_eq!(g.get_pixel(31, 6), grey);
    assert_eq!(g.get_pixel(0, 0), grey);
    assert_eq!(g.get_pixel(21, 0), BLACK);
    assert_eq!(g.get_pixel(22, 0), grey);
    assert_eq!(g.get_pixel(19, 9), grey);
}

#[test]
fn draw_axes_twice_equals_once() {
    let mut once = Grapher::new(30, 20, false).unwrap();
    once.update_plot(offset_colour);
    let mut twice = Grapher::new(30, 20, false).unwrap();
    twice.update_plot(offset_colour);
    once.draw_axes(3);
    twice.draw_axes(3);
    let after_one = cells(&twice);
    twice.draw_axes(3);
    assert_eq!(cells(&once), cells(&twice));
    assert_eq!(after_one, cells(&twice));
}

#[test]
fn draw_axes_on_tiny_canvases() {
    let mut one = Grapher::new(1, 1, false).unwrap();
    one.put_pixel(0, 0, (9, 9, 9));
    one.draw_axes(1);
    assert_eq!(one.get_pixel(0, 0), BLACK);
    let mut two = Grapher::new(2, 2, false).unwrap();
    two.update_plot(|_, _| (5, 5, 5));
    two.draw_axes(1);
    assert!(cells(&two).iter().all(|c| *c == BLACK));
}

#[test]
fn update_plot_paints_every_cell_with_its_own_offset() {
    for (w, h) in [(100u32, 100u32), (5, 3), (1, 1), (4, 7), (9, 2)] {
        let mut g = Grapher::new(w, h, false).unwrap();
        g.update_plot(offset_colour);
        for row in 0..h {
            for col in 0..w {
                let x = col as i32 - (w / 2) as i32;
                let y = (h / 2) as i32 - row as i32;
                assert_eq!(g.get_pixel(col, row), offset_colour(x, y), "cell ({col}, {row}) of {w}x{h}");
            }
        }
    }
}

#[test]
fn update_plot_draws_axes_when_enabled() {
    let mut g = Grapher::new(20, 20, true).unwrap();
    g.update_plot(|_, _| (200, 100, 50));
    assert_eq!(g.get_pixel(10, 3), BLACK);
    assert_eq!(g.get_pixel(3, 10), BLACK);
    assert_eq!(g.get_pixel(11, 0), BLACK);
    assert_eq!(g.get_pixel(11, 1), (200, 100, 50));
    assert_eq!(g.get_pixel(0, 9), BLACK);
    assert_eq!(g.get_pixel(1, 9), (200, 100, 50));
    assert_eq!(g.get_pixel(3, 3), (200, 100, 50));
    assert_eq!(AXIS_TICK_SPACING, 5);
}

#[test]
fn update_plot_overwrites_the_whole_canvas() {
    let mut g = Grapher::default();
    g.draw_axes(5);
    g.update_plot(|_, _| (1, 2, 3));
    assert!(cells(&g).iter().all(|c| *c == (1, 2, 3)));
}

#[test]
fn identity_function_on_a_100_by_100_canvas() {
    // zoom 1, no shift: the plane point of offset (x, y) is x + iy
    let zoom = 1.0f64;
    let (x_shift, y_shift) = (0.0f64, 0.0f64);
    let mut g = Grapher::new(100, 100, false).unwrap();
    g.update_plot(|x, y| {
        let re = (x as f64 + x_shift) / zoom;
        let im = (y as f64 + y_shift) / zoom;
        ((re + 100.0) as u8, (im + 100.0) as u8, 0)
    });
    assert_eq!(g.get_pixel(50, 50), (100, 100, 0));
    assert_eq!(g.get_pixel(99, 50), (149, 100, 0));
    assert_eq!(g.get_pixel(0, 0), (50, 150, 0));
    assert_eq!(g.get_pixel(0, 99), (50, 51, 0));
}

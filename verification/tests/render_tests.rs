use raster3d::consts::{HEIGHT, PX_SIZE, WIDTH};
use raster3d::point::{Color, Point};
use raster3d::render::{plot_if_visible, Screen};

fn assert_pixels(s: &Screen, lit: &[(i64, i64)], color: Color) {
    for &(x, y) in lit {
        assert_eq!(s.getxy(x as usize, y as usize), color, "pixel ({}, {})", x, y);
    }
}

fn count_lit(s: &Screen) -> usize {
    let black = Color::black();
    let mut n = 0;
    for x in 0..WIDTH {
        for y in 0..HEIGHT {
            if s.getxy(x, y) != black {
                n += 1;
            }
        }
    }
    n
}

#[test]
fn screen_starts_black() {
    let s = Screen::new();
    assert_eq!(s.getxy(0, 0), Color::black());
    assert_eq!(s.getxy(WIDTH - 1, HEIGHT - 1), Color::black());
    assert_eq!(s.as_bytes().len(), WIDTH * HEIGHT * PX_SIZE);
    assert!(s.as_bytes().iter().all(|&b| b == 0));
}

#[test]
fn setxy_then_getxy_roundtrip() {
    let mut s = Screen::new();
    let c = Color::rgb(10, 20, 30);
    s.setxy(3, 7, c);
    assert_eq!(s.getxy(3, 7), c);
    assert_eq!(s.getxy(3, 8), Color::black());
    assert_eq!(s.getxy(4, 7), Color::black());
}

#[test]
fn bottom_left_pixel_lands_in_last_byte_row() {
    let mut s = Screen::new();
    s.setxy(0, 0, Color::rgb(1, 2, 3));
    let i = (HEIGHT - 1) * WIDTH * PX_SIZE;
    let bytes = s.as_bytes();
    assert_eq!(&bytes[i..i + 3], &[1, 2, 3]);
}

#[test]
fn top_left_pixel_lands_in_first_byte_row() {
    let mut s = Screen::new();
    s.setxy(0, HEIGHT - 1, Color::rgb(9, 8, 7));
    let bytes = s.as_bytes();
    assert_eq!(&bytes[0..3], &[9, 8, 7]);
}

#[test]
fn clear_black_resets_everything() {
    let mut s = Screen::new();
    s.setxy(5, 5, Color::white());
    s.setxy(499, 499, Color::white());
    s.clear_black();
    assert_eq!(s.getxy(5, 5), Color::black());
    assert_eq!(s.getxy(499, 499), Color::black());
    assert!(s.as_bytes().iter().all(|&b| b == 0));
}

#[test]
fn plot_if_visible_plots_inside() {
    let mut s = Screen::new();
    plot_if_visible(&mut s, Point::xy(2, 3), Color::white());
    assert_eq!(s.getxy(2, 3), Color::white());
}

#[test]
fn plot_if_visible_drops_outside() {
    let mut s = Screen::new();
    plot_if_visible(&mut s, Point::xy(-1, 0), Color::white());
    plot_if_visible(&mut s, Point::xy(0, -1), Color::white());
    plot_if_visible(&mut s, Point::xy(WIDTH as i64, 0), Color::white());
    plot_if_visible(&mut s, Point::xy(0, HEIGHT as i64), Color::white());
    assert_eq!(count_lit(&s), 0);
}

#[test]
fn line_shallow_rising() {
    let mut s = Screen::new();
    raster3d::render::line(&mut s, Point::xy(0, 0), Point::xy(4, 2), Color::white());
    assert_pixels(&s, &[(0, 0), (1, 1), (2, 1), (3, 2), (4, 2)], Color::white());
    assert_eq!(count_lit(&s), 5);
}

#[test]
fn line_steep_rising() {
    let mut s = Screen::new();
    raster3d::render::line(&mut s, Point::xy(0, 0), Point::xy(1, 4), Color::white());
    assert_pixels(&s, &[(0, 0), (0, 1), (0, 2), (1, 3), (1, 4)], Color::white());
    assert_eq!(count_lit(&s), 5);
}

#[test]
fn line_vertical_upward_stays_in_its_column() {
    let mut s = Screen::new();
    raster3d::render::line(&mut s, Point::xy(0, 0), Point::xy(0, 5), Color::white());
    assert_pixels(
        &s,
        &[(0, 0), (0, 1), (0, 2), (0, 3), (0, 4), (0, 5)],
        Color::white(),
    );
    assert_eq!(count_lit(&s), 6);
}

#[test]
fn line_steep_rising_ends_on_endpoint() {
    let mut s = Screen::new();
    raster3d::render::line(&mut s, Point::xy(0, 0), Point::xy(2, 5), Color::white());
    assert_pixels(
        &s,
        &[(0, 0), (0, 1), (1, 2), (1, 3), (2, 4), (2, 5)],
        Color::white(),
    );
    assert_eq!(count_lit(&s), 6);
}

#[test]
fn line_falling_diagonal() {
    let mut s = Screen::new();
    raster3d::render::line(&mut s, Point::xy(0, 4), Point::xy(4, 0), Color::white());
    assert_pixels(&s, &[(0, 4), (1, 3), (2, 2), (3, 1), (4, 0)], Color::white());
    assert_eq!(count_lit(&s), 5);
}

#[test]
fn line_vertical_downward() {
    let mut s = Screen::new();
    raster3d::render::line(&mut s, Point::xy(2, 5), Point::xy(2, 1), Color::white());
    assert_pixels(&s, &[(2, 5), (2, 4), (2, 3), (2, 2), (2, 1)], Color::white());
    assert_eq!(count_lit(&s), 5);
}

#[test]
fn line_right_to_left_is_reversed() {
    let mut s = Screen::new();
    raster3d::render::line(&mut s, Point::xy(5, 2), Point::xy(0, 2), Color::white());
    assert_pixels(
        &s,
        &[(0, 2), (1, 2), (2, 2), (3, 2), (4, 2), (5, 2)],
        Color::white(),
    );
    assert_eq!(count_lit(&s), 6);
}

#[test]
fn line_clips_offscreen_pixels() {
    let mut s = Screen::new();
    raster3d::render::line(&mut s, Point::xy(-2, -1), Point::xy(2, 1), Color::white());
    // the walk visits (-2,-1), (-1,0), (0,0), (1,1), (2,1); only the
    // in-bounds pixels are plotted
    assert_pixels(&s, &[(0, 0), (1, 1), (2, 1)], Color::white());
    assert_eq!(count_lit(&s), 3);
}

#[test]
fn line_single_point() {
    let mut s = Screen::new();
    raster3d::render::line(&mut s, Point::xy(3, 3), Point::xy(3, 3), Color::white());
    assert_pixels(&s, &[(3, 3)], Color::white());
    assert_eq!(count_lit(&s), 1);
}

#[test]
fn line_continuity_of_consecutive_pixels() {
    // the continuity law on one concrete segment: walk a diagonal-ish line
    // and check every lit column has a lit neighbour one column over, no
    // more than one row away
    let mut s = Screen::new();
    raster3d::render::line(&mut s, Point::xy(0, 0), Point::xy(99, 37), Color::white());
    let mut rows = Vec::new();
    for x in 0..100usize {
        let mut row = None;
        for y in 0..100usize {
            if s.getxy(x, y) != Color::black() {
                assert!(row.is_none(), "two pixels lit in column {}", x);
                row = Some(y as i64);
            }
        }
        rows.push(row.expect("no pixel lit in column"));
    }
    for x in 1..100usize {
        let step = rows[x] - rows[x - 1];
        assert!(step == 0 || step == 1, "column {} jumps by {}", x, step);
    }
}

use vstd::prelude::*;
use crate::consts::{WIDTH, HEIGHT, PX_SIZE};
use crate::point::{Color, Point};

verus! {

/// Number of bytes in one pixel row of the screen.
pub const SCREEN_ROW_SIZE: usize = WIDTH * PX_SIZE;

/// Total number of bytes in a screen buffer.
pub const SCREEN_BYTES: usize = WIDTH * HEIGHT * PX_SIZE;

/// Byte index of the red channel of the pixel at logical position (x, y).
/// Logical y counts up from the bottom of the image, while the byte buffer
/// stores the top visual row first, so logical row y lands in byte row
/// `HEIGHT - 1 - y`.
pub open spec fn spec_pixel_index(x: int, y: int) -> int {
    (HEIGHT - 1 - y) * (WIDTH * PX_SIZE) + x * PX_SIZE
}

/// The color stored at (x, y) in a screen byte buffer.
pub open spec fn spec_color_at(s: Seq<u8>, x: int, y: int) -> Color {
    Color {
        r: s[spec_pixel_index(x, y)],
        g: s[spec_pixel_index(x, y) + 1],
        b: s[spec_pixel_index(x, y) + 2],
    }
}

/// The screen byte buffer with the pixel at (x, y) set to `c`.
pub open spec fn spec_paint(s: Seq<u8>, x: int, y: int, c: Color) -> Seq<u8> {
    s.update(spec_pixel_index(x, y), c.r).update(spec_pixel_index(x, y) + 1, c.g).update(
        spec_pixel_index(x, y) + 2,
        c.b,
    )
}

/// Like `spec_paint`, but a point outside the screen bounds leaves the buffer
/// unchanged (the rasterizer's clipping policy).
pub open spec fn spec_paint_clipped(s: Seq<u8>, x: int, y: int, c: Color) -> Seq<u8> {
    if 0 <= x < WIDTH && 0 <= y < HEIGHT {
        spec_paint(s, x, y, c)
    } else {
        s
    }
}

/// The screen byte buffer after painting every point of `pts` in order with
/// color `c`, clipping each to the screen bounds.
pub open spec fn spec_paint_points(s: Seq<u8>, pts: Seq<(int, int)>, c: Color) -> Seq<u8>
    decreases pts.len(),
{
    if pts.len() == 0 {
        s
    } else {
        spec_paint_clipped(spec_paint_points(s, pts.drop_last(), c), pts.last().0, pts.last().1, c)
    }
}

/// Painting a pixel changes that pixel to the given color and leaves every
/// other pixel of the screen as it was.
pub proof fn lemma_paint_reads_back(s: Seq<u8>, x: int, y: int, c: Color)
    requires
        s.len() == WIDTH * HEIGHT * PX_SIZE,
        0 <= x < WIDTH,
        0 <= y < HEIGHT,
    ensures
        spec_color_at(spec_paint(s, x, y, c), x, y) == c,
        forall|x2: int, y2: int|
            0 <= x2 < WIDTH && 0 <= y2 < HEIGHT && (x2 != x || y2 != y)
                ==> #[trigger] spec_color_at(spec_paint(s, x, y, c), x2, y2) == spec_color_at(
                s,
                x2,
                y2,
            ),
{
    assert forall|x2: int, y2: int|
        0 <= x2 < WIDTH && 0 <= y2 < HEIGHT && (x2 != x || y2 != y)
            implies #[trigger] spec_color_at(spec_paint(s, x, y, c), x2, y2) == spec_color_at(
            s,
            x2,
            y2,
        ) by {
        assert(spec_pixel_index(x2, y2) - spec_pixel_index(x, y) >= 3
            || spec_pixel_index(x, y) - spec_pixel_index(x2, y2) >= 3);
    }
}

/// Painting a walk of points never touches a pixel the walk does not visit:
/// every in-bounds pixel off the walk keeps its old color (and the buffer
/// keeps its size).
pub proof fn lemma_paint_points_untouched(s: Seq<u8>, pts: Seq<(int, int)>, c: Color)
    requires
        s.len() == WIDTH * HEIGHT * PX_SIZE,
    ensures
        spec_paint_points(s, pts, c).len() == s.len(),
        forall|x2: int, y2: int|
            0 <= x2 < WIDTH && 0 <= y2 < HEIGHT && !pts.contains((x2, y2))
                ==> #[trigger] spec_color_at(spec_paint_points(s, pts, c), x2, y2)
                == spec_color_at(s, x2, y2),
    decreases pts.len(),
{
    if pts.len() > 0 {
        lemma_paint_points_untouched(s, pts.drop_last(), c);
        let prev = spec_paint_points(s, pts.drop_last(), c);
        let end = pts.last();
        assert forall|x2: int, y2: int|
            0 <= x2 < WIDTH && 0 <= y2 < HEIGHT && !pts.contains((x2, y2))
                implies #[trigger] spec_color_at(spec_paint_points(s, pts, c), x2, y2)
                == spec_color_at(s, x2, y2) by {
            assert(pts[pts.len() - 1] == end);
            assert(!pts.drop_last().contains((x2, y2))) by {
                if pts.drop_last().contains((x2, y2)) {
                    let i = choose|i: int|
                        0 <= i < pts.drop_last().len() && pts.drop_last()[i] == (x2, y2);
                    assert(pts[i] == (x2, y2));
                }
            }
            if 0 <= end.0 < WIDTH && 0 <= end.1 < HEIGHT {
                lemma_paint_reads_back(prev, end.0, end.1, c);
            }
        }
    }
}

/// Painting a walk of points reaches every in-bounds pixel it visits: each
/// such pixel ends up holding exactly the walk's color.
pub proof fn lemma_paint_points_covered(s: Seq<u8>, pts: Seq<(int, int)>, c: Color)
    requires
        s.len() == WIDTH * HEIGHT * PX_SIZE,
    ensures
        forall|k: int|
            0 <= k < pts.len() && 0 <= (#[trigger] pts[k]).0 < WIDTH && 0 <= pts[k].1 < HEIGHT
                ==> spec_color_at(spec_paint_points(s, pts, c), pts[k].0, pts[k].1) == c,
    decreases pts.len(),
{
    if pts.len() > 0 {
        lemma_paint_points_covered(s, pts.drop_last(), c);
        lemma_paint_points_untouched(s, pts.drop_last(), c);
        let prev = spec_paint_points(s, pts.drop_last(), c);
        let end = pts.last();
        assert forall|k: int|
            0 <= k < pts.len() && 0 <= (#[trigger] pts[k]).0 < WIDTH && 0 <= pts[k].1 < HEIGHT
                implies spec_color_at(spec_paint_points(s, pts, c), pts[k].0, pts[k].1)
                == c by {
            if 0 <= end.0 < WIDTH && 0 <= end.1 < HEIGHT {
                lemma_paint_reads_back(prev, end.0, end.1, c);
            }
            if k < pts.len() - 1 {
                assert(pts.drop_last()[k] == pts[k]);
                assert(spec_color_at(prev, pts[k].0, pts[k].1) == c);
            } else {
                assert(pts[k] == end);
            }
        }
    }
}

/// A fixed-size WIDTH x HEIGHT pixel buffer, three bytes per pixel, stored
/// row-major with the top visual row first.
pub struct Screen {
    data: Vec<u8>,
}

impl View for Screen {
    type V = Seq<u8>;

    closed spec fn view(&self) -> Seq<u8> {
        self.data@
    }
}

impl Screen {
    /// A screen buffer is exactly WIDTH * HEIGHT pixels.
    pub open spec fn wf(&self) -> bool {
        self@.len() == WIDTH * HEIGHT * PX_SIZE
    }

    /// A fresh, all-black screen.
    pub fn new() -> (s: Screen)
        ensures
            s.wf(),
            s@ == Seq::new((WIDTH * HEIGHT * PX_SIZE) as nat, |i: int| 0u8),
    {
        let data = vec![0u8; SCREEN_BYTES];
        let s = Screen { data };
        proof {
            assert(s@ =~= Seq::new((WIDTH * HEIGHT * PX_SIZE) as nat, |i: int| 0u8));
        }
        s
    }

    /// Read the color of the pixel at (x, y).
    pub fn getxy(&self, x: usize, y: usize) -> (c: Color)
        requires
            self.wf(),
            x < WIDTH,
            y < HEIGHT,
        ensures
            c == spec_color_at(self@, x as int, y as int),
    {
        let row = HEIGHT - y - 1;
        let i = row * SCREEN_ROW_SIZE + x * PX_SIZE;
        Color { r: self.data[i], g: self.data[i + 1], b: self.data[i + 2] }
    }

    /// Overwrite the pixel at (x, y) with `clr`.
    pub fn setxy(&mut self, x: usize, y: usize, clr: Color)
        requires
            old(self).wf(),
            x < WIDTH,
            y < HEIGHT,
        ensures
            final(self).wf(),
            final(self)@ == spec_paint(old(self)@, x as int, y as int, clr),
    {
        let row = HEIGHT - y - 1;
        let i = row * SCREEN_ROW_SIZE + x * PX_SIZE;
        self.data[i] = clr.r;
        self.data[i + 1] = clr.g;
        self.data[i + 2] = clr.b;
    }

    /// The raw bytes of the screen, top visual row first.
    pub fn as_bytes(&self) -> (b: &[u8])
        ensures
            b@ == self@,
    {
        self.data.as_slice()
    }

    /// Reset every pixel to black.
    pub fn clear_black(&mut self)
        requires
            old(self).wf(),
        ensures
            final(self).wf(),
            final(self)@ == Seq::new((WIDTH * HEIGHT * PX_SIZE) as nat, |i: int| 0u8),
    {
        let mut i: usize = 0;
        while i < SCREEN_BYTES
            invariant
                self.wf(),
                i <= SCREEN_BYTES,
                forall|j: int| 0 <= j < i ==> self@[j] == 0u8,
            decreases SCREEN_BYTES - i,
        {
            self.data[i] = 0;
            i = i + 1;
        }
        proof {
            assert(self@ =~= Seq::new((WIDTH * HEIGHT * PX_SIZE) as nat, |i: int| 0u8));
        }
    }
}

/// Largest coordinate magnitude the line rasterizer accepts; generous enough
/// for any on- or off-screen endpoint while keeping the error accumulator's
/// intermediate sums inside i64.
pub const COORD_LIMIT: i64 = 0x4000_0000;

/// The point's coordinates are small enough for the line rasterizer.
pub open spec fn spec_coord_ok(p: Point) -> bool {
    -COORD_LIMIT <= p.x <= COORD_LIMIT && -COORD_LIMIT <= p.y <= COORD_LIMIT
}

/// The pixels visited when stepping a shallow rising line (octant 1: the
/// segment runs rightward, climbing no faster than one unit of y per unit of
/// x) from column x to column x1 with error accumulator d. Mirrors the
/// rasterizer's loop: every step moves one column right and the accumulator
/// decides whether the row advances.
pub open spec fn spec_bline_oct1(x: int, y: int, x1: int, dx: int, dy: int, d: int) -> Seq<
    (int, int),
>
    decreases x1 + 1 - x,
{
    if x > x1 {
        Seq::empty()
    } else {
        let rest = if d + dy > 0 {
            spec_bline_oct1(x + 1, y + 1, x1, dx, dy, d + dy - dx)
        } else {
            spec_bline_oct1(x + 1, y, x1, dx, dy, d + dy)
        };
        seq![(x, y)] + rest
    }
}

/// Bresenham's line algorithm for octant 1.
fn bline_oct1(image: &mut Screen, start: Point, end: Point, color: Color)
    requires
        old(image).wf(),
        spec_coord_ok(start),
        spec_coord_ok(end),
        start.x <= end.x,
        0 <= end.y - start.y <= end.x - start.x,
    ensures
        final(image).wf(),
        final(image)@ == spec_paint_points(
            old(image)@,
            spec_bline_oct1(
                start.x as int,
                start.y as int,
                end.x as int,
                end.x - start.x,
                end.y - start.y,
                2 * (end.y - start.y) - (end.x - start.x),
            ),
            color,
        ),
{
    let dx: i64 = end.x - start.x;
    let dy: i64 = end.y - start.y;
    let mut d: i64 = 2 * dy - dx;
    let mut cur = start;
    let ghost full = spec_bline_oct1(
        start.x as int,
        start.y as int,
        end.x as int,
        dx as int,
        dy as int,
        d as int,
    );
    let ghost mut done: Seq<(int, int)> = Seq::empty();
    proof {
        assert(full =~= done + full);
    }
    while cur.x <= end.x
        invariant
            image.wf(),
            dx == end.x - start.x,
            dy == end.y - start.y,
            0 <= dy <= dx,
            spec_coord_ok(start),
            spec_coord_ok(end),
            start.x <= cur.x <= end.x + 1,
            0 <= cur.y - start.y <= cur.x - start.x,
            -dx <= d <= dx,
            full == done + spec_bline_oct1(
                cur.x as int,
                cur.y as int,
                end.x as int,
                dx as int,
                dy as int,
                d as int,
            ),
            image@ == spec_paint_points(old(image)@, done, color),
        decreases end.x + 1 - cur.x,
    {
        let ghost prev_done = done;
        let ghost rest = spec_bline_oct1(
            cur.x as int,
            cur.y as int,
            end.x as int,
            dx as int,
            dy as int,
            d as int,
        );
        plot_if_visible(image, cur, color);
        proof {
            done = done.push((cur.x as int, cur.y as int));
            assert(done.drop_last() =~= prev_done);
            assert(image@ == spec_paint_points(old(image)@, done, color));
            assert(full =~= done + rest.drop_first());
        }
        cur.x = cur.x + 1;
        d = d + dy;
        if d > 0 {
            cur.y = cur.y + 1;
            d = d - dx;
        }
        proof {
            assert(rest.drop_first() == spec_bline_oct1(
                cur.x as int,
                cur.y as int,
                end.x as int,
                dx as int,
                dy as int,
                d as int,
            ));
        }
    }
    proof {
        assert(full =~= done);
    }
}

/// The pixels visited when stepping a steep rising line (octant 2: the
/// segment climbs faster than one unit of y per unit of x) from row y to row
/// y1 with error accumulator d. Every step moves one row up; the
/// accumulator, seeded with `2*dx - dy` and fed `2*dx` per row, tracks the
/// column error and decides when the column advances, so the walk ends on
/// the segment's endpoint and never leaves its columns.
pub open spec fn spec_bline_oct2(x: int, y: int, y1: int, dx: int, dy: int, d: int) -> Seq<
    (int, int),
>
    decreases y1 + 1 - y,
{
    if y > y1 {
        Seq::empty()
    } else {
        let rest = if d > 0 {
            spec_bline_oct2(x + 1, y + 1, y1, dx, dy, d - 2 * dy + 2 * dx)
        } else {
            spec_bline_oct2(x, y + 1, y1, dx, dy, d + 2 * dx)
        };
        seq![(x, y)] + rest
    }
}

/// The pixels visited when stepping a steep falling line (octant 7: the
/// segment runs rightward while y falls faster than one unit per unit of x)
/// from row y down to row y1 with error accumulator d.
pub open spec fn spec_bline_oct7(x: int, y: int, y1: int, dx: int, dy: int, d: int) -> Seq<
    (int, int),
>
    decreases y + 1 - y1,
{
    if y < y1 {
        Seq::empty()
    } else {
        let rest = if d > 0 {
            spec_bline_oct7(x + 1, y - 1, y1, dx, dy, d + 2 * dy + 2 * dx)
        } else {
            spec_bline_oct7(x, y - 1, y1, dx, dy, d + 2 * dx)
        };
        seq![(x, y)] + rest
    }
}

/// The pixels visited when stepping a shallow falling line (octant 8: the
/// segment runs rightward, dropping no faster than one unit of y per unit of
/// x) from column x to column x1 with error accumulator d.
pub open spec fn spec_bline_oct8(x: int, y: int, x1: int, dx: int, dy: int, d: int) -> Seq<
    (int, int),
>
    decreases x1 + 1 - x,
{
    if x > x1 {
        Seq::empty()
    } else {
        let rest = if d < 0 {
            spec_bline_oct8(x + 1, y - 1, x1, dx, dy, d + 2 * dx + 2 * dy)
        } else {
            spec_bline_oct8(x + 1, y, x1, dx, dy, d + 2 * dy)
        };
        seq![(x, y)] + rest
    }
}

/// Bresenham's line algorithm for octant 2.
fn bline_oct2(image: &mut Screen, start: Point, end: Point, color: Color)
    requires
        old(image).wf(),
        spec_coord_ok(start),
        spec_coord_ok(end),
        start.x <= end.x,
        end.y - start.y > end.x - start.x,
    ensures
        final(image).wf(),
        final(image)@ == spec_paint_points(
            old(image)@,
            spec_bline_oct2(
                start.x as int,
                start.y as int,
                end.y as int,
                end.x - start.x,
                end.y - start.y,
                2 * (end.x - start.x) - (end.y - start.y),
            ),
            color,
        ),
{
    let dx: i64 = end.x - start.x;
    let dy: i64 = end.y - start.y;
    let mut d: i64 = 2 * dx - dy;
    let mut cur = start;
    let ghost full = spec_bline_oct2(
        start.x as int,
        start.y as int,
        end.y as int,
        dx as int,
        dy as int,
        d as int,
    );
    let ghost mut done: Seq<(int, int)> = Seq::empty();
    proof {
        assert(full =~= done + full);
    }
    while cur.y <= end.y
        invariant
            image.wf(),
            dx == end.x - start.x,
            dy == end.y - start.y,
            0 <= dx < dy,
            spec_coord_ok(start),
            spec_coord_ok(end),
            start.y <= cur.y <= end.y + 1,
            0 <= cur.x - start.x <= cur.y - start.y,
            -2 * dy <= d <= 2 * dx,
            full == done + spec_bline_oct2(
                cur.x as int,
                cur.y as int,
                end.y as int,
                dx as int,
                dy as int,
                d as int,
            ),
            image@ == spec_paint_points(old(image)@, done, color),
        decreases end.y + 1 - cur.y,
    {
        let ghost prev_done = done;
        let ghost rest = spec_bline_oct2(
            cur.x as int,
            cur.y as int,
            end.y as int,
            dx as int,
            dy as int,
            d as int,
        );
        plot_if_visible(image, cur, color);
        proof {
            done = done.push((cur.x as int, cur.y as int));
            assert(done.drop_last() =~= prev_done);
            assert(image@ == spec_paint_points(old(image)@, done, color));
            assert(full =~= done + rest.drop_first());
        }
        if d > 0 {
            cur.x = cur.x + 1;
            d = d - 2 * dy;
        }
        cur.y = cur.y + 1;
        d = d + 2 * dx;
        proof {
            assert(rest.drop_first() == spec_bline_oct2(
                cur.x as int,
                cur.y as int,
                end.y as int,
                dx as int,
                dy as int,
                d as int,
            ));
        }
    }
    proof {
        assert(full =~= done);
    }
}

/// Bresenham's line algorithm for octant 7.
fn bline_oct7(image: &mut Screen, start: Point, end: Point, color: Color)
    requires
        old(image).wf(),
        spec_coord_ok(start),
        spec_coord_ok(end),
        start.x <= end.x,
        start.y - end.y > end.x - start.x,
    ensures
        final(image).wf(),
        final(image)@ == spec_paint_points(
            old(image)@,
            spec_bline_oct7(
                start.x as int,
                start.y as int,
                end.y as int,
                end.x - start.x,
                end.y - start.y,
                (end.y - start.y) + 2 * (end.x - start.x),
            ),
            color,
        ),
{
    let dx: i64 = end.x - start.x;
    let dy: i64 = end.y - start.y;
    let mut d: i64 = dy + 2 * dx;
    let mut cur = start;
    let ghost full = spec_bline_oct7(
        start.x as int,
        start.y as int,
        end.y as int,
        dx as int,
        dy as int,
        d as int,
    );
    let ghost mut done: Seq<(int, int)> = Seq::empty();
    proof {
        assert(full =~= done + full);
    }
    while cur.y >= end.y
        invariant
            image.wf(),
            dx == end.x - start.x,
            dy == end.y - start.y,
            0 <= dx,
            dx + dy < 0,
            spec_coord_ok(start),
            spec_coord_ok(end),
            end.y - 1 <= cur.y <= start.y,
            0 <= cur.x - start.x <= start.y - cur.y,
            2 * dy <= d <= 2 * dx,
            full == done + spec_bline_oct7(
                cur.x as int,
                cur.y as int,
                end.y as int,
                dx as int,
                dy as int,
                d as int,
            ),
            image@ == spec_paint_points(old(image)@, done, color),
        decreases cur.y + 1 - end.y,
    {
        let ghost prev_done = done;
        let ghost rest = spec_bline_oct7(
            cur.x as int,
            cur.y as int,
            end.y as int,
            dx as int,
            dy as int,
            d as int,
        );
        plot_if_visible(image, cur, color);
        proof {
            done = done.push((cur.x as int, cur.y as int));
            assert(done.drop_last() =~= prev_done);
            assert(image@ == spec_paint_points(old(image)@, done, color));
            assert(full =~= done + rest.drop_first());
        }
        if d > 0 {
            cur.x = cur.x + 1;
            d = d + 2 * dy;
        }
        cur.y = cur.y - 1;
        d = d + 2 * dx;
        proof {
            assert(rest.drop_first() == spec_bline_oct7(
                cur.x as int,
                cur.y as int,
                end.y as int,
                dx as int,
                dy as int,
                d as int,
            ));
        }
    }
    proof {
        assert(full =~= done);
    }
}

/// Bresenham's line algorithm for octant 8.
fn bline_oct8(image: &mut Screen, start: Point, end: Point, color: Color)
    requires
        old(image).wf(),
        spec_coord_ok(start),
        spec_coord_ok(end),
        start.x <= end.x,
        0 <= start.y - end.y <= end.x - start.x,
    ensures
        final(image).wf(),
        final(image)@ == spec_paint_points(
            old(image)@,
            spec_bline_oct8(
                start.x as int,
                start.y as int,
                end.x as int,
                end.x - start.x,
                end.y - start.y,
                2 * (end.y - start.y) + (end.x - start.x),
            ),
            color,
        ),
{
    let dx: i64 = end.x - start.x;
    let dy: i64 = end.y - start.y;
    let mut d: i64 = 2 * dy + dx;
    let mut cur = start;
    let ghost full = spec_bline_oct8(
        start.x as int,
        start.y as int,
        end.x as int,
        dx as int,
        dy as int,
        d as int,
    );
    let ghost mut done: Seq<(int, int)> = Seq::empty();
    proof {
        assert(full =~= done + full);
    }
    while cur.x <= end.x
        invariant
            image.wf(),
            dx == end.x - start.x,
            dy == end.y - start.y,
            0 <= dx,
            -dx <= dy <= 0,
            spec_coord_ok(start),
            spec_coord_ok(end),
            start.x <= cur.x <= end.x + 1,
            0 <= start.y - cur.y <= cur.x - start.x,
            2 * dy <= d <= 2 * dx,
            full == done + spec_bline_oct8(
                cur.x as int,
                cur.y as int,
                end.x as int,
                dx as int,
                dy as int,
                d as int,
            ),
            image@ == spec_paint_points(old(image)@, done, color),
        decreases end.x + 1 - cur.x,
    {
        let ghost prev_done = done;
        let ghost rest = spec_bline_oct8(
            cur.x as int,
            cur.y as int,
            end.x as int,
            dx as int,
            dy as int,
            d as int,
        );
        plot_if_visible(image, cur, color);
        proof {
            done = done.push((cur.x as int, cur.y as int));
            assert(done.drop_last() =~= prev_done);
            assert(image@ == spec_paint_points(old(image)@, done, color));
            assert(full =~= done + rest.drop_first());
        }
        if d < 0 {
            cur.y = cur.y - 1;
            d = d + 2 * dx;
        }
        cur.x = cur.x + 1;
        d = d + 2 * dy;
        proof {
            assert(rest.drop_first() == spec_bline_oct8(
                cur.x as int,
                cur.y as int,
                end.x as int,
                dx as int,
                dy as int,
                d as int,
            ));
        }
    }
    proof {
        assert(full =~= done);
    }
}

/// Two pixels are adjacent steps of a rasterized line: they differ, and
/// neither coordinate moves by more than one unit.
pub open spec fn spec_adjacent(p: (int, int), q: (int, int)) -> bool {
    -1 <= q.0 - p.0 <= 1 && -1 <= q.1 - p.1 <= 1 && p != q
}

/// Every pair of consecutive pixels in `pts` is an adjacent step.
pub open spec fn spec_connected(pts: Seq<(int, int)>) -> bool {
    forall|k: int| 0 <= k < pts.len() - 1 ==> #[trigger] spec_adjacent(pts[k], pts[k + 1])
}

/// The octant-1 walk is connected, starts at (x, y), and visits each column
/// from x to x1 exactly once, in order.
proof fn lemma_oct1_connected(x: int, y: int, x1: int, dx: int, dy: int, d: int)
    ensures
        spec_connected(spec_bline_oct1(x, y, x1, dx, dy, d)),
        spec_bline_oct1(x, y, x1, dx, dy, d).len() == if x <= x1 {
            x1 + 1 - x
        } else {
            0
        },
        x <= x1 ==> spec_bline_oct1(x, y, x1, dx, dy, d)[0] == (x, y),
        forall|k: int|
            0 <= k < spec_bline_oct1(x, y, x1, dx, dy, d).len() ==> (#[trigger] spec_bline_oct1(
                x,
                y,
                x1,
                dx,
                dy,
                d,
            )[k]).0 == x + k,
    decreases x1 + 1 - x,
{
    let pts = spec_bline_oct1(x, y, x1, dx, dy, d);
    if x <= x1 {
        let y2 = if d + dy > 0 {
            y + 1
        } else {
            y
        };
        let d2 = if d + dy > 0 {
            d + dy - dx
        } else {
            d + dy
        };
        let rest = spec_bline_oct1(x + 1, y2, x1, dx, dy, d2);
        lemma_oct1_connected(x + 1, y2, x1, dx, dy, d2);
        assert(pts == seq![(x, y)] + rest);
        assert forall|k: int| 0 <= k < pts.len() - 1 implies #[trigger] spec_adjacent(
            pts[k],
            pts[k + 1],
        ) by {
            if k == 0 {
                assert(rest[0] == (x + 1, y2));
            } else {
                let j = k - 1;
                assert(spec_adjacent(rest[j], rest[j + 1]));
                assert(pts[k] == rest[j]);
                assert(pts[k + 1] == rest[j + 1]);
            }
        }
    }
}

/// The octant-2 walk is connected, starts at (x, y), and visits each row from
/// y to y1 exactly once, in order.
proof fn lemma_oct2_connected(x: int, y: int, y1: int, dx: int, dy: int, d: int)
    ensures
        spec_connected(spec_bline_oct2(x, y, y1, dx, dy, d)),
        spec_bline_oct2(x, y, y1, dx, dy, d).len() == if y <= y1 {
            y1 + 1 - y
        } else {
            0
        },
        y <= y1 ==> spec_bline_oct2(x, y, y1, dx, dy, d)[0] == (x, y),
        forall|k: int|
            0 <= k < spec_bline_oct2(x, y, y1, dx, dy, d).len() ==> (#[trigger] spec_bline_oct2(
                x,
                y,
                y1,
                dx,
                dy,
                d,
            )[k]).1 == y + k,
    decreases y1 + 1 - y,
{
    let pts = spec_bline_oct2(x, y, y1, dx, dy, d);
    if y <= y1 {
        let x2 = if d > 0 {
            x + 1
        } else {
            x
        };
        let d2 = if d > 0 {
            d - 2 * dy + 2 * dx
        } else {
            d + 2 * dx
        };
        let rest = spec_bline_oct2(x2, y + 1, y1, dx, dy, d2);
        lemma_oct2_connected(x2, y + 1, y1, dx, dy, d2);
        assert(pts == seq![(x, y)] + rest);
        assert forall|k: int| 0 <= k < pts.len() - 1 implies #[trigger] spec_adjacent(
            pts[k],
            pts[k + 1],
        ) by {
            if k == 0 {
                assert(rest[0] == (x2, y + 1));
            } else {
                let j = k - 1;
                assert(spec_adjacent(rest[j], rest[j + 1]));
                assert(pts[k] == rest[j]);
                assert(pts[k + 1] == rest[j + 1]);
            }
        }
    }
}

/// The octant-2 accumulator invariant, step by step: at every node of the
/// walk the accumulator encodes the column error against the ideal segment,
/// and stays within the band that keeps the column between the endpoints'
/// columns; on the final row the column is exactly the endpoint's.
proof fn lemma_oct2_walk(x0: int, y0: int, x: int, y: int, y1: int, dx: int, dy: int, d: int)
    requires
        0 <= dx < dy,
        dy == y1 - y0,
        y0 <= y <= y1,
        x0 <= x,
        d == 2 * dx * (y - y0 + 1) - dy * (2 * (x - x0) + 1),
        2 * (dx - dy) < d <= 2 * dx,
    ensures
        spec_bline_oct2(x, y, y1, dx, dy, d).len() >= 1,
        spec_bline_oct2(x, y, y1, dx, dy, d).last() == (x0 + dx, y1),
        forall|k: int|
            0 <= k < spec_bline_oct2(x, y, y1, dx, dy, d).len() ==> x <= (
            #[trigger] spec_bline_oct2(x, y, y1, dx, dy, d)[k]).0 <= x0 + dx,
    decreases y1 - y,
{
    let pts = spec_bline_oct2(x, y, y1, dx, dy, d);
    assert(x <= x0 + dx) by (nonlinear_arith)
        requires
            0 <= dx < dy,
            dy == y1 - y0,
            y0 <= y <= y1,
            d == 2 * dx * (y - y0 + 1) - dy * (2 * (x - x0) + 1),
            2 * (dx - dy) < d,
    ;
    if y == y1 {
        assert(x == x0 + dx) by (nonlinear_arith)
            requires
                0 <= dx < dy,
                dy == y1 - y0,
                y == y1,
                d == 2 * dx * (y - y0 + 1) - dy * (2 * (x - x0) + 1),
                2 * (dx - dy) < d <= 2 * dx,
        ;
        assert(spec_bline_oct2(x + 1, y + 1, y1, dx, dy, d - 2 * dy + 2 * dx)
            =~= Seq::<(int, int)>::empty());
        assert(spec_bline_oct2(x, y + 1, y1, dx, dy, d + 2 * dx) =~= Seq::<(int, int)>::empty());
        assert(pts =~= seq![(x, y)]);
    } else {
        let x2 = if d > 0 {
            x + 1
        } else {
            x
        };
        let d2 = if d > 0 {
            d - 2 * dy + 2 * dx
        } else {
            d + 2 * dx
        };
        assert(d2 == 2 * dx * (y + 1 - y0 + 1) - dy * (2 * (x2 - x0) + 1)) by (nonlinear_arith)
            requires
                d == 2 * dx * (y - y0 + 1) - dy * (2 * (x - x0) + 1),
                (d > 0 ==> x2 == x + 1 && d2 == d - 2 * dy + 2 * dx),
                (d <= 0 ==> x2 == x && d2 == d + 2 * dx),
        ;
        let rest = spec_bline_oct2(x2, y + 1, y1, dx, dy, d2);
        lemma_oct2_walk(x0, y0, x2, y + 1, y1, dx, dy, d2);
        assert(pts == seq![(x, y)] + rest);
        assert(pts.last() == rest.last());
        assert forall|k: int| 0 <= k < pts.len() implies x <= (#[trigger] pts[k]).0 <= x0
            + dx by {
            if k == 0 {
                assert(pts[0] == (x, y));
            } else {
                assert(pts[k] == rest[k - 1]);
                assert(x2 <= rest[k - 1].0 <= x0 + dx);
            }
        }
    }
}

/// The corrected steep walk is faithful to its segment: seeded with
/// `2*dx - dy`, the octant-2 walk from (x0, y0) up to row y1 covers one
/// pixel per row, never leaves the segment's columns [x0, x0 + dx], and its
/// final pixel is exactly the segment's endpoint.
pub proof fn lemma_oct2_endpoint(x0: int, y0: int, y1: int, dx: int, dy: int)
    requires
        0 <= dx < dy,
        dy == y1 - y0,
    ensures
        spec_bline_oct2(x0, y0, y1, dx, dy, 2 * dx - dy).len() == dy + 1,
        spec_bline_oct2(x0, y0, y1, dx, dy, 2 * dx - dy).last() == (x0 + dx, y1),
        forall|k: int|
            0 <= k < spec_bline_oct2(x0, y0, y1, dx, dy, 2 * dx - dy).len() ==> x0 <= (
            #[trigger] spec_bline_oct2(x0, y0, y1, dx, dy, 2 * dx - dy)[k]).0 <= x0 + dx,
{
    lemma_oct2_connected(x0, y0, y1, dx, dy, 2 * dx - dy);
    assert(2 * dx * (y0 - y0 + 1) - dy * (2 * (x0 - x0) + 1) == 2 * dx - dy) by (nonlinear_arith);
    lemma_oct2_walk(x0, y0, x0, y0, y1, dx, dy, 2 * dx - dy);
}

/// The octant-7 walk is connected, starts at (x, y), and visits each row from
/// y down to y1 exactly once, in order.
proof fn lemma_oct7_connected(x: int, y: int, y1: int, dx: int, dy: int, d: int)
    ensures
        spec_connected(spec_bline_oct7(x, y, y1, dx, dy, d)),
        spec_bline_oct7(x, y, y1, dx, dy, d).len() == if y >= y1 {
            y + 1 - y1
        } else {
            0
        },
        y >= y1 ==> spec_bline_oct7(x, y, y1, dx, dy, d)[0] == (x, y),
        forall|k: int|
            0 <= k < spec_bline_oct7(x, y, y1, dx, dy, d).len() ==> (#[trigger] spec_bline_oct7(
                x,
                y,
                y1,
                dx,
                dy,
                d,
            )[k]).1 == y - k,
    decreases y + 1 - y1,
{
    let pts = spec_bline_oct7(x, y, y1, dx, dy, d);
    if y >= y1 {
        let x2 = if d > 0 {
            x + 1
        } else {
            x
        };
        let d2 = if d > 0 {
            d + 2 * dy + 2 * dx
        } else {
            d + 2 * dx
        };
        let rest = spec_bline_oct7(x2, y - 1, y1, dx, dy, d2);
        lemma_oct7_connected(x2, y - 1, y1, dx, dy, d2);
        assert(pts == seq![(x, y)] + rest);
        assert forall|k: int| 0 <= k < pts.len() - 1 implies #[trigger] spec_adjacent(
            pts[k],
            pts[k + 1],
        ) by {
            if k == 0 {
                assert(rest[0] == (x2, y - 1));
            } else {
                let j = k - 1;
                assert(spec_adjacent(rest[j], rest[j + 1]));
                assert(pts[k] == rest[j]);
                assert(pts[k + 1] == rest[j + 1]);
            }
        }
    }
}

/// The octant-8 walk is connected, starts at (x, y), and visits each column
/// from x to x1 exactly once, in order.
proof fn lemma_oct8_connected(x: int, y: int, x1: int, dx: int, dy: int, d: int)
    ensures
        spec_connected(spec_bline_oct8(x, y, x1, dx, dy, d)),
        spec_bline_oct8(x, y, x1, dx, dy, d).len() == if x <= x1 {
            x1 + 1 - x
        } else {
            0
        },
        x <= x1 ==> spec_bline_oct8(x, y, x1, dx, dy, d)[0] == (x, y),
        forall|k: int|
            0 <= k < spec_bline_oct8(x, y, x1, dx, dy, d).len() ==> (#[trigger] spec_bline_oct8(
                x,
                y,
                x1,
                dx,
                dy,
                d,
            )[k]).0 == x + k,
    decreases x1 + 1 - x,
{
    let pts = spec_bline_oct8(x, y, x1, dx, dy, d);
    if x <= x1 {
        let y2 = if d < 0 {
            y - 1
        } else {
            y
        };
        let d2 = if d < 0 {
            d + 2 * dx + 2 * dy
        } else {
            d + 2 * dy
        };
        let rest = spec_bline_oct8(x + 1, y2, x1, dx, dy, d2);
        lemma_oct8_connected(x + 1, y2, x1, dx, dy, d2);
        assert(pts == seq![(x, y)] + rest);
        assert forall|k: int| 0 <= k < pts.len() - 1 implies #[trigger] spec_adjacent(
            pts[k],
            pts[k + 1],
        ) by {
            if k == 0 {
                assert(rest[0] == (x + 1, y2));
            } else {
                let j = k - 1;
                assert(spec_adjacent(rest[j], rest[j + 1]));
                assert(pts[k] == rest[j]);
                assert(pts[k + 1] == rest[j + 1]);
            }
        }
    }
}

/// Bresenham continuity: for every segment, the rasterizer's walk starts at
/// the left endpoint, takes exactly one pixel per unit of the major axis, and
/// never lets two consecutively plotted pixels drift apart by more than one
/// unit in either axis.
pub proof fn lemma_line_points_connected(x0: int, y0: int, x1: int, y1: int)
    ensures
        spec_connected(spec_line_points(x0, y0, x1, y1)),
        spec_line_points(x0, y0, x1, y1).len() == 1 + (if x1 - x0 >= 0 {
            if y1 - y0 >= 0 {
                if y1 - y0 > x1 - x0 {
                    y1 - y0
                } else {
                    x1 - x0
                }
            } else {
                if y0 - y1 > x1 - x0 {
                    y0 - y1
                } else {
                    x1 - x0
                }
            }
        } else {
            if y0 - y1 >= 0 {
                if y0 - y1 > x0 - x1 {
                    y0 - y1
                } else {
                    x0 - x1
                }
            } else {
                if y1 - y0 > x0 - x1 {
                    y1 - y0
                } else {
                    x0 - x1
                }
            }
        }),
        spec_line_points(x0, y0, x1, y1)[0] == if x0 <= x1 {
            (x0, y0)
        } else {
            (x1, y1)
        },
    decreases (if x0 > x1 {
        1int
    } else {
        0int
    }),
{
    if x0 > x1 {
        lemma_line_points_connected(x1, y1, x0, y0);
    } else {
        let dx = x1 - x0;
        let dy = y1 - y0;
        if y1 > y0 {
            if dy > dx {
                lemma_oct2_connected(x0, y0, y1, dx, dy, 2 * dx - dy);
            } else {
                lemma_oct1_connected(x0, y0, x1, dx, dy, 2 * dy - dx);
            }
        } else {
            if -dy > dx {
                lemma_oct7_connected(x0, y0, y1, dx, dy, dy + 2 * dx);
            } else {
                lemma_oct8_connected(x0, y0, x1, dx, dy, 2 * dy + dx);
            }
        }
    }
}

/// The pixels visited when drawing the segment from (x0, y0) to (x1, y1):
/// the segment is first turned to run left to right, then handed to the
/// stepping rule of the octant its slope falls in.
pub open spec fn spec_line_points(x0: int, y0: int, x1: int, y1: int) -> Seq<(int, int)>
    decreases (if x0 > x1 {
        1int
    } else {
        0int
    }),
{
    if x0 > x1 {
        spec_line_points(x1, y1, x0, y0)
    } else {
        let dx = x1 - x0;
        let dy = y1 - y0;
        let more_vertical = (if dy >= 0 {
            dy
        } else {
            -dy
        }) > dx;
        if y1 > y0 {
            if more_vertical {
                spec_bline_oct2(x0, y0, y1, dx, dy, 2 * dx - dy)
            } else {
                spec_bline_oct1(x0, y0, x1, dx, dy, 2 * dy - dx)
            }
        } else {
            if more_vertical {
                spec_bline_oct7(x0, y0, y1, dx, dy, dy + 2 * dx)
            } else {
                spec_bline_oct8(x0, y0, x1, dx, dy, 2 * dy + dx)
            }
        }
    }
}

/// Draw a line in `image` using Bresenham's line algorithm (and variants for
/// each octant), clipping to the screen pixel by pixel.
pub fn line(image: &mut Screen, start: Point, end: Point, color: Color)
    requires
        old(image).wf(),
        spec_coord_ok(start),
        spec_coord_ok(end),
    ensures
        final(image).wf(),
        final(image)@ == spec_paint_points(
            old(image)@,
            spec_line_points(start.x as int, start.y as int, end.x as int, end.y as int),
            color,
        ),
    decreases (if start.x > end.x {
        1int
    } else {
        0int
    }),
{
    if start.x > end.x {
        // Swap `start` and `end` so `start` is on the left
        line(image, end, start, color);
    } else {
        // Dispatch to various functions based on octant
        let rise = if end.y >= start.y {
            end.y - start.y
        } else {
            start.y - end.y
        };
        let more_vertical = rise > end.x - start.x;
        if end.y > start.y {
            if more_vertical {
                bline_oct2(image, start, end, color);
            } else {
                bline_oct1(image, start, end, color);
            }
        } else {
            if more_vertical {
                bline_oct7(image, start, end, color);
            } else {
                bline_oct8(image, start, end, color);
            }
        }
    }
}

/// If the point `p` is within the width and height of `image`, plot `color`
/// at `p`; points off the screen are silently dropped.
pub fn plot_if_visible(image: &mut Screen, p: Point, color: Color)
    requires
        old(image).wf(),
    ensures
        final(image).wf(),
        final(image)@ == spec_paint_clipped(old(image)@, p.x as int, p.y as int, color),
{
    let within_x = p.x >= 0 && p.x < WIDTH as i64;
    let within_y = p.y >= 0 && p.y < HEIGHT as i64;
    if within_x && within_y {
        image.setxy(p.x as usize, p.y as usize, color);
    }
}

} // verus!

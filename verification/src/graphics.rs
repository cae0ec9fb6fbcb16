//! A small drawing surface with a current colour: points, lines and discs.
//!
//! The surface is a flat store of bytes in rows of `stride` bytes. The pixel
//! at `(x, y)` occupies the four bytes from `y * stride + 4 * x` on, in the
//! order blue, green, red and one byte that is always written as `0xff`.
//! A pixel is written only if it lies within the surface's width and height
//! and its four bytes lie within the store; any other position is passed over.

use vstd::prelude::*;
use crate::color::Color;

verus! {

/// A drawing surface as contracts see it.
pub struct Surface {
    /// The width in pixels.
    pub width: usize,
    /// The height in pixels.
    pub height: usize,
    /// The number of bytes from one row to the next.
    pub stride: usize,
    /// The colour that `clear` fills with.
    pub background: Color,
    /// The colour that pixels are drawn in.
    pub foreground: Color,
    /// The bytes of the store.
    pub bytes: Seq<u8>,
}

/// The distance between `a` and `b`.
pub open spec fn span(a: int, b: int) -> int {
    if a < b {
        b - a
    } else {
        a - b
    }
}

/// The neighbour of `a` on the way to `b`, or `a` itself if it is there.
pub open spec fn toward(a: int, b: int) -> int {
    if a < b {
        a + 1
    } else if a > b {
        a - 1
    } else {
        a
    }
}

/// The points of a line from `(x, y)` on, the point itself included, on the
/// way to `(x1, y1)`. `err` is the error term that the walk has
/// accumulated, `dx` the horizontal extent of the whole line and `dy` the
/// negated vertical extent. Twice the error term decides each step: at or
/// above `dy` the walk moves one column, at or below `dx` one row. The walk
/// ends at `(x1, y1)`.
pub open spec fn line_rest(x: int, y: int, err: int, x1: int, y1: int, dx: int, dy: int) -> Seq<
    (int, int),
>
    decreases span(x, x1) + span(y, y1),
{
    let across = 2 * err >= dy && x != x1;
    let down = 2 * err <= dx && y != y1;
    if (x == x1 && y == y1) || (!across && !down) {
        seq![(x, y)]
    } else {
        let next_x = if across {
            toward(x, x1)
        } else {
            x
        };
        let next_y = if down {
            toward(y, y1)
        } else {
            y
        };
        let next_err = err + (if across {
            dy
        } else {
            0
        }) + (if down {
            dx
        } else {
            0
        });
        seq![(x, y)] + line_rest(next_x, next_y, next_err, x1, y1, dx, dy)
    }
}

/// The points of the line from `(x0, y0)` to `(x1, y1)`, both included, in
/// the order in which they are drawn.
pub open spec fn line_points(x0: int, y0: int, x1: int, y1: int) -> Seq<(int, int)> {
    line_rest(x0, y0, span(x0, x1) - span(y0, y1), x1, y1, span(x0, x1), -span(y0, y1))
}

/// Whether `(x, y)` lies no further than `radius` from `(cx, cy)`.
pub open spec fn in_disc(cx: int, cy: int, radius: int, x: int, y: int) -> bool {
    (x - cx) * (x - cx) + (y - cy) * (y - cy) <= radius * radius
}

impl Surface {
    /// The first byte of the pixel at `(x, y)`.
    pub open spec fn index(self, x: int, y: int) -> int {
        y * self.stride + 4 * x
    }

    /// Whether `(x, y)` is a pixel that can be written.
    pub open spec fn lit(self, x: int, y: int) -> bool {
        &&& 0 <= x < self.width
        &&& 0 <= y < self.height
        &&& self.index(x, y) + 3 < self.bytes.len()
    }

    /// The surface after the pixel at `(x, y)` was drawn in the foreground
    /// colour, if it can be written.
    pub open spec fn plot(self, x: int, y: int) -> Surface {
        if self.lit(x, y) {
            let i = self.index(x, y);
            Surface {
                bytes: self.bytes.update(i, self.foreground.2).update(
                    i + 1,
                    self.foreground.1,
                ).update(i + 2, self.foreground.0).update(i + 3, 0xffu8),
                ..self
            }
        } else {
            self
        }
    }

    /// The surface after each of `points` was drawn in turn.
    pub open spec fn plot_all(self, points: Seq<(int, int)>) -> Surface
        decreases points.len(),
    {
        if points.len() == 0 {
            self
        } else {
            self.plot_all(points.drop_last()).plot(points.last().0, points.last().1)
        }
    }

    /// The surface after the disc around `(cx, cy)` was drawn row by row
    /// as far as row `cy + row`, column `cx + col`, both measured from the
    /// centre and that position itself left out.
    pub open spec fn plot_disc(self, cx: int, cy: int, radius: int, row: int, col: int) -> Surface
        decreases row + radius, col + radius,
    {
        if radius < 0 || row < -radius || col < -radius {
            self
        } else if col > -radius {
            let before = self.plot_disc(cx, cy, radius, row, col - 1);
            if in_disc(cx, cy, radius, cx + col - 1, cy + row) {
                before.plot(cx + col - 1, cy + row)
            } else {
                before
            }
        } else if row > -radius {
            self.plot_disc(cx, cy, radius, row - 1, radius + 1)
        } else {
            self
        }
    }

    /// The surface after every whole group of four bytes was set to the
    /// background colour. Fewer than four bytes at the end stay as they are.
    pub open spec fn cleared(self) -> Surface {
        Surface {
            bytes: Seq::new(
                self.bytes.len(),
                |i: int|
                    if i < 4 * (self.bytes.len() / 4) {
                        pixel_byte(self.background, i % 4)
                    } else {
                        self.bytes[i]
                    },
            ),
            ..self
        }
    }
}

impl Surface {
    /// Whether `(x, y)` lies within the surface's width and height.
    pub open spec fn on(self, x: int, y: int) -> bool {
        0 <= x < self.width && 0 <= y < self.height
    }

    /// Whether the rows lie apart and the store holds all of them: no two
    /// pixels share a byte, and every pixel of the surface can be written.
    pub open spec fn tidy(self) -> bool {
        &&& 4 * self.width <= self.stride
        &&& self.height * self.stride <= self.bytes.len()
    }

    /// The four bytes of the pixel at `(x, y)`.
    pub open spec fn cell(self, x: int, y: int) -> (u8, u8, u8, u8) {
        let i = self.index(x, y);
        (self.bytes[i], self.bytes[i + 1], self.bytes[i + 2], self.bytes[i + 3])
    }

    /// The four bytes of a pixel in the foreground colour.
    pub open spec fn ink(self) -> (u8, u8, u8, u8) {
        (self.foreground.2, self.foreground.1, self.foreground.0, 0xffu8)
    }

    /// Whether `other` has the geometry and the colours of this surface, and
    /// as many bytes.
    pub open spec fn alike(self, other: Surface) -> bool {
        &&& other.width == self.width
        &&& other.height == self.height
        &&& other.stride == self.stride
        &&& other.background == self.background
        &&& other.foreground == self.foreground
        &&& other.bytes.len() == self.bytes.len()
    }

    /// On a tidy surface every pixel has its four bytes in the store, and
    /// two pixels share none.
    pub proof fn lemma_cells_apart(self, x: int, y: int, x2: int, y2: int)
        requires
            self.tidy(),
            self.on(x, y),
            self.on(x2, y2),
        ensures
            0 <= self.index(x, y),
            self.index(x, y) + 4 <= self.bytes.len(),
            self.lit(x, y),
            (x != x2 || y != y2) ==> self.index(x, y) + 4 <= self.index(x2, y2) || self.index(
                x2,
                y2,
            ) + 4 <= self.index(x, y),
    {
        let stride = self.stride as int;
        let height = self.height as int;
        assert(0 <= y * stride && (y + 1) * stride <= height * stride && (y + 1) * stride == y
            * stride + stride) by (nonlinear_arith)
            requires
                0 <= y < height,
                0 <= stride,
        ;
        if y < y2 {
            assert((y + 1) * stride <= y2 * stride && (y + 1) * stride == y * stride + stride)
                by (nonlinear_arith)
                requires
                    y + 1 <= y2,
                    0 <= stride,
            ;
        }
        if y2 < y {
            assert((y2 + 1) * stride <= y * stride && (y2 + 1) * stride == y2 * stride + stride)
                by (nonlinear_arith)
                requires
                    y2 + 1 <= y,
                    0 <= stride,
            ;
        }
    }

    /// On a tidy surface, drawing a pixel sets that pixel to the foreground
    /// colour and leaves every other pixel as it was.
    pub proof fn lemma_plot_cell(self, x: int, y: int, px: int, py: int)
        requires
            self.tidy(),
            self.on(px, py),
        ensures
            self.alike(self.plot(x, y)),
            self.plot(x, y).tidy(),
            self.plot(x, y).cell(px, py) == if px == x && py == y {
                self.ink()
            } else {
                self.cell(px, py)
            },
    {
        if self.on(x, y) {
            self.lemma_cells_apart(x, y, px, py);
        }
        self.lemma_cells_apart(px, py, px, py);
    }

    /// On a tidy surface, drawing points sets the pixels among them to the
    /// foreground colour and leaves every other pixel as it was.
    pub proof fn lemma_plot_all_cell(self, points: Seq<(int, int)>, px: int, py: int)
        requires
            self.tidy(),
            self.on(px, py),
        ensures
            self.alike(self.plot_all(points)),
            self.plot_all(points).tidy(),
            self.plot_all(points).cell(px, py) == if points.contains((px, py)) {
                self.ink()
            } else {
                self.cell(px, py)
            },
        decreases points.len(),
    {
        if points.len() > 0 {
            let front = points.drop_last();
            let last = points.last();
            self.lemma_plot_all_cell(front, px, py);
            self.plot_all(front).lemma_plot_cell(last.0, last.1, px, py);
            assert(points == front.push(last));
            vstd::seq_lib::lemma_seq_contains_after_push(front, last, (px, py));
        }
    }

    /// On a tidy surface, a disc sets the pixels that lie no further than the
    /// radius from the centre to the foreground colour and leaves every other
    /// pixel as it was.
    pub proof fn lemma_disc_cell(self, cx: int, cy: int, radius: int, px: int, py: int)
        requires
            self.tidy(),
            self.on(px, py),
        ensures
            self.alike(self.plot_disc(cx, cy, radius, radius, radius + 1)),
            self.plot_disc(cx, cy, radius, radius, radius + 1).cell(px, py) == if radius >= 0
                && in_disc(cx, cy, radius, px, py) {
                self.ink()
            } else {
                self.cell(px, py)
            },
    {
        if radius >= 0 {
            self.lemma_disc_part_cell(cx, cy, radius, radius, radius + 1, px, py);
        }
        if radius >= 0 && in_disc(cx, cy, radius, px, py) {
            let u = px - cx;
            let v = py - cy;
            assert(-radius <= u <= radius && -radius <= v <= radius) by (nonlinear_arith)
                requires
                    u * u + v * v <= radius * radius,
                    0 <= radius,
            ;
        }
    }

    /// What a disc that was drawn as far as row `row`, column `col` shows.
    proof fn lemma_disc_part_cell(
        self,
        cx: int,
        cy: int,
        radius: int,
        row: int,
        col: int,
        px: int,
        py: int,
    )
        requires
            self.tidy(),
            self.on(px, py),
            -radius <= row <= radius,
            -radius <= col <= radius + 1,
        ensures
            self.alike(self.plot_disc(cx, cy, radius, row, col)),
            self.plot_disc(cx, cy, radius, row, col).tidy(),
            self.plot_disc(cx, cy, radius, row, col).cell(px, py) == if in_disc(
                cx,
                cy,
                radius,
                px,
                py,
            ) && -radius <= px - cx <= radius && -radius <= py - cy && (py - cy < row || (py - cy
                == row && px - cx < col)) {
                self.ink()
            } else {
                self.cell(px, py)
            },
        decreases row + radius, col + radius,
    {
        if col > -radius {
            self.lemma_disc_part_cell(cx, cy, radius, row, col - 1, px, py);
            let before = self.plot_disc(cx, cy, radius, row, col - 1);
            before.lemma_plot_cell(cx + col - 1, cy + row, px, py);
        } else if row > -radius {
            self.lemma_disc_part_cell(cx, cy, radius, row - 1, radius + 1, px, py);
        }
    }
}

/// The byte at place `k` of the four that stand for `c`.
pub open spec fn pixel_byte(c: Color, k: int) -> u8 {
    if k == 0 {
        c.2
    } else if k == 1 {
        c.1
    } else if k == 2 {
        c.0
    } else {
        0xffu8
    }
}

/// A drawing surface that owns its bytes.
#[derive(Debug)]
pub struct Graphics {
    /// The width in pixels.
    pub width: usize,
    /// The height in pixels.
    pub height: usize,
    buf: Vec<u8>,
    stride: usize,
    bg_color: Color,
    fg_color: Color,
}

impl Clone for Graphics {
    fn clone(&self) -> (copy: Graphics)
        ensures
            copy@ == self@,
    {
        Graphics {
            width: self.width,
            height: self.height,
            buf: self.buf.clone(),
            stride: self.stride,
            bg_color: self.bg_color,
            fg_color: self.fg_color,
        }
    }
}

impl View for Graphics {
    type V = Surface;

    closed spec fn view(&self) -> Surface {
        Surface {
            width: self.width,
            height: self.height,
            stride: self.stride,
            background: self.bg_color,
            foreground: self.fg_color,
            bytes: self.buf@,
        }
    }
}

impl Graphics {
    /// A surface of `width` by `height` pixels over `buf`, with rows
    /// `stride` bytes apart, a black background and a white foreground.
    pub fn new(buf: Vec<u8>, width: usize, height: usize, stride: usize) -> (g: Graphics)
        ensures
            g@ == (Surface {
                width,
                height,
                stride,
                background: Color(0, 0, 0),
                foreground: Color(255, 255, 255),
                bytes: buf@,
            }),
    {
        Graphics {
            width,
            height,
            buf,
            stride,
            bg_color: Color(0, 0, 0),
            fg_color: Color(255, 255, 255),
        }
    }

    /// The bytes of the store.
    pub fn as_bytes(&self) -> (bytes: &Vec<u8>)
        ensures
            bytes@ == self@.bytes,
    {
        &self.buf
    }

    /// Gives the bytes back.
    pub fn into_bytes(self) -> (bytes: Vec<u8>)
        ensures
            bytes@ == self@.bytes,
    {
        self.buf
    }

    /// Makes `color` the colour that pixels are drawn in.
    pub fn set_color(&mut self, color: Color)
        ensures
            final(self)@ == (Surface { foreground: color, ..old(self)@ }),
    {
        self.fg_color = color;
    }

    /// Fills the store with the background colour.
    pub fn clear(&mut self)
        ensures
            final(self)@ == old(self)@.cleared(),
    {
        let len = self.buf.len();
        let bg = self.bg_color;
        let mut i: usize = 0;
        while len - i >= 4
            invariant
                i <= len,
                i % 4 == 0,
                len == self.buf@.len(),
                len == old(self)@.bytes.len(),
                bg == old(self)@.background,
                self@ == (Surface { bytes: self.buf@, ..old(self)@ }),
                forall|j: int| 0 <= j < i ==> self.buf@[j] == pixel_byte(bg, j % 4),
                forall|j: int| i <= j < len ==> self.buf@[j] == old(self)@.bytes[j],
            decreases len - i,
        {
            self.buf[i] = bg.2;
            self.buf[i + 1] = bg.1;
            self.buf[i + 2] = bg.0;
            self.buf[i + 3] = 0xff;
            i += 4;
        }
        proof {
            assert(i == 4 * (len as int / 4));
            assert(self@.bytes =~= old(self)@.cleared().bytes);
        }
    }

    /// Draws the pixel at `(x, y)`, given in any integer range. A position
    /// that cannot be written is passed over.
    fn plot(&mut self, x: i128, y: i128)
        ensures
            final(self)@ == old(self)@.plot(x as int, y as int),
    {
        if x < 0 || y < 0 || x >= self.width as i128 || y >= self.height as i128 {
            return;
        }
        let len = self.buf.len();
        assert(0 <= y * self.stride <= 0xffff_ffff_ffff_ffff * 0xffff_ffff_ffff_ffff)
            by (nonlinear_arith)
            requires
                0 <= y <= 0xffff_ffff_ffff_ffff,
                0 <= self.stride <= 0xffff_ffff_ffff_ffff,
        ;
        let row: u128 = y as u128 * self.stride as u128;
        if row > len as u128 {
            return;
        }
        let i: u128 = row + 4 * x as u128;
        if i + 3 < len as u128 {
            let at: usize = i as usize;
            self.buf[at] = self.fg_color.2;
            self.buf[at + 1] = self.fg_color.1;
            self.buf[at + 2] = self.fg_color.0;
            self.buf[at + 3] = 0xff;
        }
    }

    /// Draws the pixel at `(x, y)` in the foreground colour. A position
    /// outside the surface, or one whose bytes the store does not hold, is
    /// passed over.
    pub fn put_pixel(&mut self, x: isize, y: isize)
        ensures
            final(self)@ == old(self)@.plot(x as int, y as int),
    {
        self.plot(x as i128, y as i128)
    }
}

/// The points of a level line whose walk stands at column `x`: one point
/// for each column from `x` to `x1`, all in row `y`.
pub open spec fn level_points(x: int, x1: int, y: int) -> Seq<(int, int)> {
    Seq::new(
        (span(x, x1) + 1) as nat,
        |k: int|
            (
                if x <= x1 {
                    x + k
                } else {
                    x - k
                },
                y,
            ),
    )
}

/// A level line keeps to its row and takes each column once, from one
/// end to the other.
pub proof fn lemma_level_line(x0: int, x1: int, y: int)
    ensures
        line_points(x0, y, x1, y) == level_points(x0, x1, y),
        line_points(x0, y, x1, y).len() == span(x0, x1) + 1,
{
    lemma_level_rest(x0, x1, y, span(x0, x1));
}

/// The walk of a level line from any of its columns on.
proof fn lemma_level_rest(x: int, x1: int, y: int, dx: int)
    requires
        dx >= 0,
    ensures
        line_rest(x, y, dx, x1, y, dx, 0) == level_points(x, x1, y),
    decreases span(x, x1),
{
    if x == x1 {
        assert(line_rest(x, y, dx, x1, y, dx, 0) =~= level_points(x, x1, y));
    } else {
        lemma_level_rest(toward(x, x1), x1, y, dx);
        assert(line_rest(x, y, dx, x1, y, dx, 0) == seq![(x, y)] + line_rest(
            toward(x, x1),
            y,
            dx,
            x1,
            y,
            dx,
            0,
        ));
        assert(seq![(x, y)] + level_points(toward(x, x1), x1, y) =~= level_points(x, x1, y));
    }
}

/// A line starts at its first end.
pub proof fn lemma_line_starts(x0: int, y0: int, x1: int, y1: int)
    ensures
        line_points(x0, y0, x1, y1).len() > 0,
        line_points(x0, y0, x1, y1)[0] == (x0, y0),
{
}

/// The longer of the two extents of the line from `(x0, y0)` to `(x1, y1)`.
pub open spec fn reach(x0: int, y0: int, x1: int, y1: int) -> int {
    if span(x0, x1) >= span(y0, y1) {
        span(x0, x1)
    } else {
        span(y0, y1)
    }
}

/// How far `(x, y)` lies off the straight line through `(x0, y0)` and
/// `(x1, y1)`, measured as the area that the three points span: zero for a
/// point on the line.
pub open spec fn drift(x0: int, y0: int, x1: int, y1: int, x: int, y: int) -> int {
    (x - x0) * (y1 - y0) - (y - y0) * (x1 - x0)
}

/// Whether `(x, y)` is a point for the line from `(x0, y0)` to `(x1, y1)`:
/// it lies in the rectangle that the two ends span, and no more than half
/// a pixel off the straight line, measured along the shorter extent.
pub open spec fn near_line(x0: int, y0: int, x1: int, y1: int, x: int, y: int) -> bool {
    &&& span(x0, x) + span(x, x1) == span(x0, x1)
    &&& span(y0, y) + span(y, y1) == span(y0, y1)
    &&& -reach(x0, y0, x1, y1) <= 2 * drift(x0, y0, x1, y1, x, y) <= reach(x0, y0, x1, y1)
}

/// A line has one point for each step along its longer extent, both ends
/// counted.
pub proof fn lemma_line_length(x0: int, y0: int, x1: int, y1: int)
    ensures
        line_points(x0, y0, x1, y1).len() == reach(x0, y0, x1, y1) + 1,
{
    let dx = span(x0, x1);
    let ady = span(y0, y1);
    assert(0 * dx == 0 && 0 * ady == 0);
    lemma_line_rest_near(x0, y0, x1, y1, 0, 0, x0, y0, dx - ady, dx, ady);
}

/// Every point of a line lies in the rectangle of its ends and no more than
/// half a pixel off the straight line between them.
pub proof fn lemma_line_near(x0: int, y0: int, x1: int, y1: int, i: int)
    requires
        0 <= i < line_points(x0, y0, x1, y1).len(),
    ensures
        near_line(
            x0,
            y0,
            x1,
            y1,
            line_points(x0, y0, x1, y1)[i].0,
            line_points(x0, y0, x1, y1)[i].1,
        ),
{
    let dx = span(x0, x1);
    let ady = span(y0, y1);
    assert(0 * dx == 0 && 0 * ady == 0);
    lemma_line_rest_near(x0, y0, x1, y1, 0, 0, x0, y0, dx - ady, dx, ady);
    let rest = line_rest(x0, y0, dx - ady, x1, y1, dx, -ady);
    assert(near_line(x0, y0, x1, y1, rest[i].0, rest[i].1));
}

/// The walk of a line that has taken `nx` steps across and `ny` steps down
/// to `(x, y)`, and stands no more than half a pixel off the straight line,
/// stays that near and takes one point for each step that is left along the
/// longer extent.
proof fn lemma_line_rest_near(
    x0: int,
    y0: int,
    x1: int,
    y1: int,
    nx: int,
    ny: int,
    x: int,
    y: int,
    err: int,
    dx: int,
    ady: int,
)
    requires
        dx == span(x0, x1),
        ady == span(y0, y1),
        0 <= nx <= dx,
        0 <= ny <= ady,
        x0 < x1 ==> x == x0 + nx,
        x0 >= x1 ==> x == x0 - nx,
        y0 < y1 ==> y == y0 + ny,
        y0 >= y1 ==> y == y0 - ny,
        err == dx - ady + ny * dx - nx * ady,
        -reach(x0, y0, x1, y1) <= 2 * (ny * dx - nx * ady) <= reach(x0, y0, x1, y1),
    ensures
        line_rest(x, y, err, x1, y1, dx, -ady).len() == (if dx >= ady {
            dx - nx
        } else {
            ady - ny
        }) + 1,
        forall|i: int|
            0 <= i < line_rest(x, y, err, x1, y1, dx, -ady).len() ==> near_line(
                x0,
                y0,
                x1,
                y1,
                (#[trigger] line_rest(x, y, err, x1, y1, dx, -ady)[i]).0,
                line_rest(x, y, err, x1, y1, dx, -ady)[i].1,
            ),
    decreases (dx - nx) + (ady - ny),
{
    let dy = -ady;
    let p = ny * dx;
    let q = nx * ady;
    let d = p - q;
    let rest = line_rest(x, y, err, x1, y1, dx, dy);
    assert(drift(x0, y0, x1, y1, x, y) == d || drift(x0, y0, x1, y1, x, y) == -d) by {
        lemma_drift(x0, y0, x1, y1, nx, ny);
    }
    assert(near_line(x0, y0, x1, y1, x, y));
    if nx == dx {
        assert(d <= -dx || ny == ady) by (nonlinear_arith)
            requires
                d == ny * dx - nx * ady,
                nx == dx,
                0 <= ny <= ady,
                0 <= dx,
        ;
    }
    if ny == ady {
        assert(d >= ady || nx == dx) by (nonlinear_arith)
            requires
                d == ny * dx - nx * ady,
                ny == ady,
                0 <= nx <= dx,
                0 <= ady,
        ;
    }
    if x == x1 && y == y1 {
        assert(nx == dx && ny == ady);
        assert(rest == seq![(x, y)]);
    } else {
        assert((ny + 1) * dx == ny * dx + dx) by (nonlinear_arith);
        assert((nx + 1) * ady == nx * ady + ady) by (nonlinear_arith);
        let across = 2 * err >= dy && x != x1;
        let down = 2 * err <= dx && y != y1;
        assert(dx >= ady ==> across);
        assert(ady >= dx ==> down);
        let next_nx = if across {
            nx + 1
        } else {
            nx
        };
        let next_ny = if down {
            ny + 1
        } else {
            ny
        };
        let next_x = if across {
            toward(x, x1)
        } else {
            x
        };
        let next_y = if down {
            toward(y, y1)
        } else {
            y
        };
        let next_err = err + (if across {
            dy
        } else {
            0
        }) + (if down {
            dx
        } else {
            0
        });
        lemma_line_rest_near(
            x0,
            y0,
            x1,
            y1,
            next_nx,
            next_ny,
            next_x,
            next_y,
            next_err,
            dx,
            ady,
        );
        let tail = line_rest(next_x, next_y, next_err, x1, y1, dx, dy);
        assert(rest == seq![(x, y)] + tail);
        assert forall|i: int| 0 <= i < rest.len() implies near_line(
            x0,
            y0,
            x1,
            y1,
            (#[trigger] rest[i]).0,
            rest[i].1,
        ) by {
            if i > 0 {
                assert(rest[i] == tail[i - 1]);
                assert(near_line(x0, y0, x1, y1, tail[i - 1].0, tail[i - 1].1));
            }
        }
    }
}

/// The drift of a walk that took `nx` steps across and `ny` steps down is, up
/// to its sign, the difference of the two products that the error term holds.
proof fn lemma_drift(x0: int, y0: int, x1: int, y1: int, nx: int, ny: int)
    ensures
        ({
            let x = if x0 < x1 {
                x0 + nx
            } else {
                x0 - nx
            };
            let y = if y0 < y1 {
                y0 + ny
            } else {
                y0 - ny
            };
            let d = ny * span(x0, x1) - nx * span(y0, y1);
            drift(x0, y0, x1, y1, x, y) == d || drift(x0, y0, x1, y1, x, y) == -d
        }),
{
    let dx = span(x0, x1);
    let ady = span(y0, y1);
    let x = if x0 < x1 {
        x0 + nx
    } else {
        x0 - nx
    };
    let y = if y0 < y1 {
        y0 + ny
    } else {
        y0 - ny
    };
    let a = x - x0;
    let b = y1 - y0;
    let c = y - y0;
    let e = x1 - x0;
    assert(a * b == nx * ady || a * b == -(nx * ady)) by (nonlinear_arith)
        requires
            a == nx || a == -nx,
            b == ady || b == -ady,
    ;
    assert(c * e == ny * dx || c * e == -(ny * dx)) by (nonlinear_arith)
        requires
            c == ny || c == -ny,
            e == dx || e == -dx,
    ;
    if x0 < x1 {
        if y0 < y1 {
            assert(a * b == nx * ady) by (nonlinear_arith)
                requires
                    a == nx,
                    b == ady,
            ;
            assert(c * e == ny * dx) by (nonlinear_arith)
                requires
                    c == ny,
                    e == dx,
            ;
        } else {
            assert(a * b == -(nx * ady)) by (nonlinear_arith)
                requires
                    a == nx,
                    b == -ady,
            ;
            assert(c * e == -(ny * dx)) by (nonlinear_arith)
                requires
                    c == -ny,
                    e == dx,
            ;
        }
    } else {
        if y0 < y1 {
            assert(a * b == -(nx * ady)) by (nonlinear_arith)
                requires
                    a == -nx,
                    b == ady,
            ;
            assert(c * e == -(ny * dx)) by (nonlinear_arith)
                requires
                    c == ny,
                    e == -dx,
            ;
        } else {
            assert(a * b == nx * ady) by (nonlinear_arith)
                requires
                    a == -nx,
                    b == -ady,
            ;
            assert(c * e == ny * dx) by (nonlinear_arith)
                requires
                    c == -ny,
                    e == -dx,
            ;
        }
    }
}

/// A line ends at its second end.
pub proof fn lemma_line_ends(x0: int, y0: int, x1: int, y1: int)
    ensures
        line_points(x0, y0, x1, y1).last() == (x1, y1),
{
    assert(0 * span(x0, x1) == 0 && 0 * span(y0, y1) == 0);
    lemma_line_rest_ends(x0, y0, x1, y1, 0, 0);
}

/// The walk of a line that has taken `nx` steps across and `ny` steps down
/// ends at the line's second end.
proof fn lemma_line_rest_ends(x0: int, y0: int, x1: int, y1: int, nx: int, ny: int)
    requires
        0 <= nx <= span(x0, x1),
        0 <= ny <= span(y0, y1),
    ensures
        ({
            let dx = span(x0, x1);
            let ady = span(y0, y1);
            let x = if x0 < x1 {
                x0 + nx
            } else {
                x0 - nx
            };
            let y = if y0 < y1 {
                y0 + ny
            } else {
                y0 - ny
            };
            line_rest(x, y, dx - ady + ny * dx - nx * ady, x1, y1, dx, -ady).last() == (x1, y1)
        }),
    decreases (span(x0, x1) - nx) + (span(y0, y1) - ny),
{
    let dx = span(x0, x1);
    let ady = span(y0, y1);
    let dy = -ady;
    let x = if x0 < x1 {
        x0 + nx
    } else {
        x0 - nx
    };
    let y = if y0 < y1 {
        y0 + ny
    } else {
        y0 - ny
    };
    let err = dx - ady + ny * dx - nx * ady;
    if x == x1 && y == y1 {
    } else {
        if nx == dx {
            assert(2 * err < dy) by (nonlinear_arith)
                requires
                    err == dx - ady + ny * dx - nx * ady,
                    nx == dx,
                    0 <= ny < ady,
                    0 <= dx,
                    dy == -ady,
            ;
        }
        if ny == ady {
            assert(2 * err > dx) by (nonlinear_arith)
                requires
                    err == dx - ady + ny * dx - nx * ady,
                    ny == ady,
                    0 <= nx < dx,
                    0 <= ady,
            ;
        }
        assert((ny + 1) * dx == ny * dx + dx) by (nonlinear_arith);
        assert((nx + 1) * ady == nx * ady + ady) by (nonlinear_arith);
        let across = 2 * err >= dy && x != x1;
        let down = 2 * err <= dx && y != y1;
        assert(across || down);
        let next_nx = if across {
            nx + 1
        } else {
            nx
        };
        let next_ny = if down {
            ny + 1
        } else {
            ny
        };
        lemma_line_rest_ends(x0, y0, x1, y1, next_nx, next_ny);
        let next_x = if across {
            toward(x, x1)
        } else {
            x
        };
        let next_y = if down {
            toward(y, y1)
        } else {
            y
        };
        let next_err = err + (if across {
            dy
        } else {
            0
        }) + (if down {
            dx
        } else {
            0
        });
        let rest = line_rest(next_x, next_y, next_err, x1, y1, dx, dy);
        assert(line_rest(x, y, err, x1, y1, dx, dy) == seq![(x, y)] + rest);
        assert(rest.len() > 0);
        assert((seq![(x, y)] + rest).last() == rest.last());
    }
}

/// Drawing one more point is drawing the points so far and then that point.
pub proof fn lemma_plot_all_push(surface: Surface, points: Seq<(int, int)>, x: int, y: int)
    ensures
        surface.plot_all(points.push((x, y))) == surface.plot_all(points).plot(x, y),
{
    assert(points.push((x, y)).drop_last() == points);
}

impl Graphics {
    /// Draws the line from `(x0, y0)` to `(x1, y1)`, both ends included,
    /// stepping by whole pixels in whichever directions the line runs.
    pub fn draw_line(&mut self, x0: isize, y0: isize, x1: isize, y1: isize)
        ensures
            final(self)@ == old(self)@.plot_all(
                line_points(x0 as int, y0 as int, x1 as int, y1 as int),
            ),
    {
        let dx: i128 = if x0 < x1 {
            x1 as i128 - x0 as i128
        } else {
            x0 as i128 - x1 as i128
        };
        let sx: i128 = if x0 < x1 {
            1
        } else {
            -1
        };
        let ady: i128 = if y0 < y1 {
            y1 as i128 - y0 as i128
        } else {
            y0 as i128 - y1 as i128
        };
        let dy: i128 = -ady;
        let sy: i128 = if y0 < y1 {
            1
        } else {
            -1
        };
        let mut err: i128 = dx + dy;
        let mut x: i128 = x0 as i128;
        let mut y: i128 = y0 as i128;
        let ghost whole = line_points(x0 as int, y0 as int, x1 as int, y1 as int);
        let ghost mut done: Seq<(int, int)> = Seq::empty();
        let ghost mut nx: int = 0;
        let ghost mut ny: int = 0;
        proof {
            assert(whole == done + line_rest(
                x as int,
                y as int,
                err as int,
                x1 as int,
                y1 as int,
                dx as int,
                dy as int,
            ));
            assert(0 * dx == 0 && 0 * ady == 0);
        }
        loop
            invariant_except_break
                dx == span(x0 as int, x1 as int),
                ady == span(y0 as int, y1 as int),
                dy == -ady,
                sx == (if x0 < x1 { 1int } else { -1int }),
                sy == (if y0 < y1 { 1int } else { -1int }),
                0 <= nx <= dx,
                0 <= ny <= ady,
                x0 < x1 ==> x == x0 + nx,
                x0 >= x1 ==> x == x0 - nx,
                y0 < y1 ==> y == y0 + ny,
                y0 >= y1 ==> y == y0 - ny,
                err == dx - ady + ny * dx - nx * ady,
                -2 * ady <= err <= 2 * dx,
                whole == done + line_rest(
                    x as int,
                    y as int,
                    err as int,
                    x1 as int,
                    y1 as int,
                    dx as int,
                    dy as int,
                ),
                self@ == old(self)@.plot_all(done),
            ensures
                self@ == old(self)@.plot_all(whole),
            decreases (dx - nx) + (ady - ny),
        {
            self.plot(x, y);
            let ghost rest = line_rest(
                x as int,
                y as int,
                err as int,
                x1 as int,
                y1 as int,
                dx as int,
                dy as int,
            );
            proof {
                lemma_plot_all_push(old(self)@, done, x as int, y as int);
            }
            if x == x1 as i128 && y == y1 as i128 {
                proof {
                    assert(rest == seq![(x as int, y as int)]);
                    assert(whole == done.push((x as int, y as int)));
                }
                break;
            }
            let e2: i128 = 2 * err;
            proof {
                if nx == dx {
                    assert(2 * err < dy) by (nonlinear_arith)
                        requires
                            err == dx - ady + ny * dx - nx * ady,
                            nx == dx,
                            0 <= ny < ady,
                            0 <= dx,
                            dy == -ady,
                    ;
                }
                if ny == ady {
                    assert(2 * err > dx) by (nonlinear_arith)
                        requires
                            err == dx - ady + ny * dx - nx * ady,
                            ny == ady,
                            0 <= nx < dx,
                            0 <= ady,
                    ;
                }
                assert((ny + 1) * dx == ny * dx + dx) by (nonlinear_arith);
                assert((nx + 1) * ady == nx * ady + ady) by (nonlinear_arith);
            }
            let ghost across = e2 >= dy;
            let ghost down = e2 <= dx;
            let ghost next_x = if across {
                toward(x as int, x1 as int)
            } else {
                x as int
            };
            let ghost next_y = if down {
                toward(y as int, y1 as int)
            } else {
                y as int
            };
            let ghost next_err = err + (if across {
                dy as int
            } else {
                0
            }) + (if down {
                dx as int
            } else {
                0
            });
            proof {
                assert(across ==> x != x1);
                assert(down ==> y != y1);
                assert(across || down);
                assert(rest == seq![(x as int, y as int)] + line_rest(
                    next_x,
                    next_y,
                    next_err,
                    x1 as int,
                    y1 as int,
                    dx as int,
                    dy as int,
                ));
                assert(whole == done.push((x as int, y as int)) + line_rest(
                    next_x,
                    next_y,
                    next_err,
                    x1 as int,
                    y1 as int,
                    dx as int,
                    dy as int,
                ));
                done = done.push((x as int, y as int));
            }
            if e2 >= dy {
                err = err + dy;
                x = x + sx;
                proof {
                    nx = nx + 1;
                }
            }
            if e2 <= dx {
                err = err + dx;
                y = y + sy;
                proof {
                    ny = ny + 1;
                }
            }
        }
    }

    /// Draws the disc of every pixel that lies no further than `radius`
    /// from `(x, y)`, row by row. A negative radius draws nothing.
    pub fn draw_point(&mut self, x: isize, y: isize, radius: isize)
        ensures
            final(self)@ == old(self)@.plot_disc(
                x as int,
                y as int,
                radius as int,
                radius as int,
                radius + 1,
            ),
    {
        if radius < 0 {
            return;
        }
        let r: i128 = radius as i128;
        let ghost start = old(self)@;
        let ghost cx = x as int;
        let ghost cy = y as int;
        let mut dy: i128 = -r;
        while dy <= r
            invariant
                0 <= r <= 0x7fff_ffff_ffff_ffff,
                r == radius,
                cx == x,
                cy == y,
                start == old(self)@,
                -r <= dy <= r + 1,
                self@ == start.plot_disc(cx, cy, r as int, dy as int, -r as int),
            decreases r + 1 - dy,
        {
            let mut dx: i128 = -r;
            while dx <= r
                invariant
                    0 <= r <= 0x7fff_ffff_ffff_ffff,
                    r == radius,
                    cx == x,
                    cy == y,
                    start == old(self)@,
                    -r <= dy <= r,
                    -r <= dx <= r + 1,
                    self@ == start.plot_disc(cx, cy, r as int, dy as int, dx as int),
                decreases r + 1 - dx,
            {
                assert(0 <= dx * dx <= 0x7fff_ffff_ffff_ffff * 0x7fff_ffff_ffff_ffff)
                    by (nonlinear_arith)
                    requires
                        -0x7fff_ffff_ffff_ffff <= dx <= 0x7fff_ffff_ffff_ffff,
                ;
                assert(0 <= dy * dy <= 0x7fff_ffff_ffff_ffff * 0x7fff_ffff_ffff_ffff)
                    by (nonlinear_arith)
                    requires
                        -0x7fff_ffff_ffff_ffff <= dy <= 0x7fff_ffff_ffff_ffff,
                ;
                assert(0 <= r * r <= 0x7fff_ffff_ffff_ffff * 0x7fff_ffff_ffff_ffff)
                    by (nonlinear_arith)
                    requires
                        0 <= r <= 0x7fff_ffff_ffff_ffff,
                ;
                if dx * dx + dy * dy <= r * r {
                    self.plot(x as i128 + dx, y as i128 + dy);
                }
                dx = dx + 1;
            }
            dy = dy + 1;
        }
    }

    /// Draws the sampled outline of a circle around `(cx, cy)`: for each of
    /// `offsets`, in turn, the pixel that lies `offset.0` to the right of the
    /// centre and `offset.1` above it. The offsets are the circle's samples,
    /// which the caller works out for the radius it wants.
    pub fn draw_circle(&mut self, cx: isize, cy: isize, offsets: &Vec<(isize, isize)>)
        ensures
            final(self)@ == old(self)@.plot_all(
                Seq::new(
                    offsets@.len(),
                    |i: int| (cx + offsets@[i].0, cy - offsets@[i].1),
                ),
            ),
    {
        let ghost points = Seq::new(
            offsets@.len(),
            |i: int| (cx + offsets@[i].0, cy - offsets@[i].1),
        );
        let mut i: usize = 0;
        while i < offsets.len()
            invariant
                i <= offsets@.len(),
                points == Seq::new(
                    offsets@.len(),
                    |i: int| (cx + offsets@[i].0, cy - offsets@[i].1),
                ),
                self@ == old(self)@.plot_all(points.take(i as int)),
            decreases offsets@.len() - i,
        {
            let offset = offsets[i];
            self.plot(cx as i128 + offset.0 as i128, cy as i128 - offset.1 as i128);
            proof {
                lemma_plot_all_push(
                    old(self)@,
                    points.take(i as int),
                    cx + offset.0,
                    cy - offset.1,
                );
                assert(points.take(i + 1) == points.take(i as int).push(points[i as int]));
            }
            i += 1;
        }
        proof {
            assert(points.take(i as int) == points);
        }
    }
}

} // verus!

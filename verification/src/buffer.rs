//! A flat store of 4-byte pixels and the rectangular viewports that address it.
//!
//! A pixel occupies four consecutive bytes in the order blue, green, red and
//! one byte that is always written as `0xff`. Rows follow each other without
//! padding, so the pixel at `(x, y)` starts at byte `4 * (y * width + x)`.
//!
//! The store owns its bytes. A [`Viewport`] holds coordinates only and is
//! resolved against a store for each write, so narrowing or shifting a
//! viewport never copies pixels.

use vstd::prelude::*;
use crate::color::Color;

verus! {

/// The number of bytes that one pixel occupies.
pub const BYTES_PER_PIXEL: usize = 4;

/// What a write or a viewport request can fail with.
#[derive(Clone, Copy, Debug, PartialEq, Eq, Structural)]
pub enum BufferError {
    /// A coordinate or a rectangle lies outside the viewport or store that it
    /// was resolved against.
    OutOfBounds,
}

/// A map from absolute pixel positions to the colour painted there, if any.
pub type Paint = spec_fn(int, int) -> Option<Color>;

/// The four bytes that stand for `c` in a store.
pub open spec fn encode(c: Color) -> (u8, u8, u8, u8) {
    (c.2, c.1, c.0, 0xffu8)
}

/// The first byte of the pixel at `(x, y)` in a store that is `width` pixels wide.
pub open spec fn pixel_index(width: int, x: int, y: int) -> int {
    4 * (y * width + x)
}

/// The paint that colours the single position `(x, y)`.
pub open spec fn dot(x: int, y: int, c: Color) -> Paint {
    |px: int, py: int|
        if px == x && py == y {
            Some(c)
        } else {
            None
        }
}

/// The paint that colours every position with `c`.
pub open spec fn fill(c: Color) -> Paint {
    |px: int, py: int| Some(c)
}

/// The paint that colours nothing.
pub open spec fn nothing() -> Paint {
    |px: int, py: int| None
}

/// The paint that colours with `c` the rows above `row`, and in row `row` the
/// positions left of `col`.
pub open spec fn fill_before(row: int, col: int, c: Color) -> Paint {
    |px: int, py: int|
        if py < row || (py == row && px < col) {
            Some(c)
        } else {
            None
        }
}

/// The paint that shows `top` where it paints and `bottom` elsewhere.
pub open spec fn over(bottom: Paint, top: Paint) -> Paint {
    |px: int, py: int|
        match top(px, py) {
            Some(c) => Some(c),
            None => bottom(px, py),
        }
}

/// Every position of a store starts where four bytes still fit.
pub proof fn lemma_pixel_index(width: int, height: int, x: int, y: int)
    requires
        0 <= x < width,
        0 <= y < height,
    ensures
        0 <= pixel_index(width, x, y),
        pixel_index(width, x, y) + 4 <= 4 * (width * height),
{
    assert(y * width + x + 1 <= width * height && 0 <= y * width) by (nonlinear_arith)
        requires
            0 <= x < width,
            0 <= y < height,
    ;
}

/// The pixels at two distinct positions of a store share no byte.
pub proof fn lemma_pixel_apart(width: int, x: int, y: int, x2: int, y2: int)
    requires
        0 <= x < width,
        0 <= x2 < width,
        0 <= y,
        0 <= y2,
        x != x2 || y != y2,
    ensures
        pixel_index(width, x, y) + 4 <= pixel_index(width, x2, y2) || pixel_index(width, x2, y2)
            + 4 <= pixel_index(width, x, y),
{
    assert(y2 * width + x2 != y * width + x) by (nonlinear_arith)
        requires
            0 <= x < width,
            0 <= x2 < width,
            0 <= y,
            0 <= y2,
            x2 != x || y2 != y,
    ;
}

/// A rectangle of pixels, given by the absolute position of its top left
/// corner in a store and by its extent.
#[derive(Clone, Copy, Debug, PartialEq, Eq, Structural)]
pub struct Viewport {
    x: u32,
    y: u32,
    width: u32,
    height: u32,
}

impl Viewport {
    /// The far edges of a viewport are coordinates too: they fit in `u32`.
    #[verifier::type_invariant]
    pub closed spec fn wf(self) -> bool {
        &&& self.x + self.width <= u32::MAX
        &&& self.y + self.height <= u32::MAX
    }

    /// The absolute position of the top left corner.
    pub closed spec fn spec_origin(self) -> (u32, u32) {
        (self.x, self.y)
    }

    /// The extent in pixels, width first.
    pub closed spec fn spec_dimensions(self) -> (u32, u32) {
        (self.width, self.height)
    }

    /// Whether the local position `(px, py)` lies inside this viewport.
    pub open spec fn contains(self, px: int, py: int) -> bool {
        &&& 0 <= px < self.spec_dimensions().0
        &&& 0 <= py < self.spec_dimensions().1
    }

    /// Whether the absolute position `(ax, ay)` lies inside this viewport.
    pub open spec fn covers(self, ax: int, ay: int) -> bool {
        self.contains(ax - self.spec_origin().0, ay - self.spec_origin().1)
    }

    /// A paint given in this viewport's local coordinates, clipped to the
    /// viewport and moved to where the viewport lies.
    pub open spec fn place(self, paint: Paint) -> Paint {
        |ax: int, ay: int|
            if self.covers(ax, ay) {
                paint(ax - self.spec_origin().0, ay - self.spec_origin().1)
            } else {
                None
            }
    }

    /// What `subdimensions` returns for a rectangle `(x, y, width, height)`
    /// given in local coordinates.
    pub closed spec fn narrowed(self, x: int, y: int, width: int, height: int) -> Result<
        Viewport,
        BufferError,
    > {
        if 0 <= x && 0 <= y && 0 <= width && 0 <= height && x + width <= self.width && y + height
            <= self.height {
            Ok(
                Viewport {
                    x: (self.x + x) as u32,
                    y: (self.y + y) as u32,
                    width: width as u32,
                    height: height as u32,
                },
            )
        } else {
            Err(BufferError::OutOfBounds)
        }
    }

    /// What `offset` returns for a shift by `(dx, dy)`.
    pub open spec fn shifted(self, dx: int, dy: int) -> Result<Viewport, BufferError> {
        self.narrowed(dx, dy, self.spec_dimensions().0 - dx, self.spec_dimensions().1 - dy)
    }

    /// Says what `narrowed` gives: a rectangle is accepted exactly when it
    /// lies inside this viewport, and its corner is then measured from this
    /// viewport's corner.
    pub proof fn lemma_narrowed(self, x: int, y: int, width: int, height: int)
        requires
            self.wf(),
        ensures
            self.narrowed(x, y, width, height) is Ok <==> (0 <= x && 0 <= y && 0 <= width && 0
                <= height && x + width <= self.spec_dimensions().0 && y + height
                <= self.spec_dimensions().1),
            self.narrowed(x, y, width, height) matches Ok(v) ==> {
                &&& v.wf()
                &&& v.spec_origin().0 == self.spec_origin().0 + x
                &&& v.spec_origin().1 == self.spec_origin().1 + y
                &&& v.spec_dimensions().0 == width
                &&& v.spec_dimensions().1 == height
            },
            self.narrowed(x, y, width, height) matches Err(e) ==> e == BufferError::OutOfBounds,
    {
    }

    /// Shifting a viewport and then narrowing it gives what narrowing alone
    /// gives for the rectangle moved by the shift; the one is refused
    /// exactly when the other is.
    pub proof fn lemma_offset_then_subdimensions(
        self,
        dx: int,
        dy: int,
        x: int,
        y: int,
        width: int,
        height: int,
    )
        requires
            self.wf(),
            0 <= dx,
            0 <= dy,
            0 <= x,
            0 <= y,
            0 <= width,
            0 <= height,
        ensures
            (match self.shifted(dx, dy) {
                Ok(moved) => moved.narrowed(x, y, width, height),
                Err(e) => Err(e),
            }) == self.narrowed(dx + x, dy + y, width, height),
    {
    }

    /// The absolute position of the top left corner.
    #[verifier::when_used_as_spec(spec_origin)]
    pub fn origin(self) -> (r: (u32, u32))
        ensures
            r == self.spec_origin(),
    {
        (self.x, self.y)
    }

    /// The extent in pixels, width first.
    #[verifier::when_used_as_spec(spec_dimensions)]
    pub fn dimensions(self) -> (r: (u32, u32))
        ensures
            r == self.spec_dimensions(),
    {
        (self.width, self.height)
    }

    /// The sub-rectangle `rect`, given as `(x, y, width, height)` in this
    /// viewport's local coordinates. Its local origin is this viewport's
    /// `(x, y)`. A rectangle that is not fully contained is refused.
    pub fn subdimensions(&self, rect: (u32, u32, u32, u32)) -> (r: Result<Viewport, BufferError>)
        ensures
            r == self.narrowed(rect.0 as int, rect.1 as int, rect.2 as int, rect.3 as int),
            r is Ok <==> rect.0 + rect.2 <= self.spec_dimensions().0 && rect.1 + rect.3
                <= self.spec_dimensions().1,
            r matches Ok(v) ==> {
                &&& v.wf()
                &&& v.spec_origin().0 == self.spec_origin().0 + rect.0
                &&& v.spec_origin().1 == self.spec_origin().1 + rect.1
                &&& v.spec_dimensions() == (rect.2, rect.3)
            },
            r matches Err(e) ==> e == BufferError::OutOfBounds,
    {
        proof {
            use_type_invariant(self);
        }
        if rect.0 as u64 + rect.2 as u64 > self.width as u64 || rect.1 as u64 + rect.3 as u64
            > self.height as u64 {
            return Err(BufferError::OutOfBounds);
        }
        Ok(
            Viewport {
                x: self.x + rect.0,
                y: self.y + rect.1,
                width: rect.2,
                height: rect.3,
            },
        )
    }

    /// This viewport shifted by `by`, keeping the extent that remains
    /// to the right of and below the new origin. A shift past the far
    /// edges is refused.
    pub fn offset(&self, by: (u32, u32)) -> (r: Result<Viewport, BufferError>)
        ensures
            r == self.shifted(by.0 as int, by.1 as int),
            r is Ok <==> by.0 <= self.spec_dimensions().0 && by.1 <= self.spec_dimensions().1,
            r matches Ok(v) ==> {
                &&& v.wf()
                &&& v.spec_origin().0 == self.spec_origin().0 + by.0
                &&& v.spec_origin().1 == self.spec_origin().1 + by.1
                &&& v.spec_dimensions().0 == self.spec_dimensions().0 - by.0
                &&& v.spec_dimensions().1 == self.spec_dimensions().1 - by.1
            },
            r matches Err(e) ==> e == BufferError::OutOfBounds,
    {
        if by.0 > self.width || by.1 > self.height {
            return Err(BufferError::OutOfBounds);
        }
        self.subdimensions((by.0, by.1, self.width - by.0, self.height - by.1))
    }
}

/// An owned store of pixels with its native width and height.
#[derive(Debug)]
pub struct Buffer {
    data: Vec<u8>,
    width: u32,
    height: u32,
}

impl Clone for Buffer {
    fn clone(&self) -> (copy: Buffer)
        ensures
            copy@ == self@,
            copy.spec_width() == self.spec_width(),
            copy.spec_height() == self.spec_height(),
            copy.wf(),
    {
        proof {
            use_type_invariant(self);
        }
        Buffer { data: self.data.clone(), width: self.width, height: self.height }
    }
}

impl View for Buffer {
    type V = Seq<u8>;

    /// The bytes of the store.
    closed spec fn view(&self) -> Seq<u8> {
        self.data@
    }
}

impl Buffer {
    /// The store holds four bytes for each of its pixels.
    #[verifier::type_invariant]
    pub closed spec fn wf(self) -> bool {
        4 * (self.width * self.height) <= self.data@.len()
    }

    /// The native width in pixels.
    pub closed spec fn spec_width(&self) -> u32 {
        self.width
    }

    /// The native height in pixels.
    pub closed spec fn spec_height(&self) -> u32 {
        self.height
    }

    /// The viewport that spans the whole store.
    pub closed spec fn full(&self) -> Viewport {
        Viewport { x: 0, y: 0, width: self.width, height: self.height }
    }

    /// The four bytes of the pixel at the absolute position `(x, y)`.
    pub open spec fn cell(self, x: int, y: int) -> (u8, u8, u8, u8) {
        let i = pixel_index(self.spec_width() as int, x, y);
        (self@[i], self@[i + 1], self@[i + 2], self@[i + 3])
    }

    /// The colour of the pixel at the absolute position `(x, y)`.
    pub open spec fn color_at(self, x: int, y: int) -> Color {
        let q = self.cell(x, y);
        Color(q.2, q.1, q.0)
    }

    /// Whether the absolute position `(x, y)` is a pixel of the store.
    pub open spec fn has(self, x: int, y: int) -> bool {
        0 <= x < self.spec_width() && 0 <= y < self.spec_height()
    }

    /// Whether the local position `(px, py)` of `view` is a pixel that a
    /// write through `view` reaches.
    pub open spec fn shows(self, view: Viewport, px: int, py: int) -> bool {
        &&& view.contains(px, py)
        &&& self.has(view.spec_origin().0 + px, view.spec_origin().1 + py)
    }

    /// Whether `view` lies inside the store.
    pub open spec fn holds(self, view: Viewport) -> bool {
        &&& view.spec_origin().0 + view.spec_dimensions().0 <= self.spec_width()
        &&& view.spec_origin().1 + view.spec_dimensions().1 <= self.spec_height()
    }

    /// The bytes after the pixel at the absolute position `(x, y)` was set to `c`.
    pub open spec fn written(self, x: int, y: int, c: Color) -> Seq<u8> {
        let i = pixel_index(self.spec_width() as int, x, y);
        self@.update(i, c.2).update(i + 1, c.1).update(i + 2, c.0).update(i + 3, 0xffu8)
    }

    /// Whether `after` is this store repainted: of the same size, showing
    /// `paint` where it gives a colour and this store's bytes everywhere
    /// else.
    pub open spec fn repainted(self, after: Buffer, paint: Paint) -> bool {
        &&& after.spec_width() == self.spec_width()
        &&& after.spec_height() == self.spec_height()
        &&& after@.len() == self@.len()
        &&& forall|i: int|
            4 * (self.spec_width() * self.spec_height()) <= i < self@.len() ==> after@[i]
                == self@[i]
        &&& forall|x: int, y: int|
            self.has(x, y) ==> #[trigger] after.cell(x, y) == match paint(x, y) {
                Some(c) => encode(c),
                None => self.cell(x, y),
            }
    }

    /// Repainting twice is repainting once with the second paint laid
    /// over the first.
    pub proof fn lemma_repainted_twice(self, mid: Buffer, after: Buffer, first: Paint, second: Paint)
        requires
            self.repainted(mid, first),
            mid.repainted(after, second),
        ensures
            self.repainted(after, over(first, second)),
    {
        let both = over(first, second);
        assert forall|x: int, y: int| self.has(x, y) implies #[trigger] after.cell(x, y) == match both(
            x,
            y,
        ) {
            Some(c) => encode(c),
            None => self.cell(x, y),
        } by {
            assert(mid.has(x, y));
            assert(mid.cell(x, y) == match first(x, y) {
                Some(c) => encode(c),
                None => self.cell(x, y),
            });
        }
    }

    /// Two paints that agree on every pixel of the store repaint it alike.
    pub proof fn lemma_repainted_alike(self, after: Buffer, paint: Paint, other: Paint)
        requires
            self.repainted(after, paint),
            forall|x: int, y: int| self.has(x, y) ==> #[trigger] paint(x, y) == other(x, y),
        ensures
            self.repainted(after, other),
    {
        assert forall|x: int, y: int| self.has(x, y) implies #[trigger] after.cell(x, y) == match other(
            x,
            y,
        ) {
            Some(c) => encode(c),
            None => self.cell(x, y),
        } by {
            assert(paint(x, y) == other(x, y));
        }
    }

    /// A store and a paint leave one possibility for every byte of the
    /// repainted store.
    pub proof fn lemma_repainted_unique(self, one: Buffer, other: Buffer, paint: Paint)
        requires
            self.repainted(one, paint),
            self.repainted(other, paint),
        ensures
            one@ == other@,
    {
        let w = self.spec_width() as int;
        let h = self.spec_height() as int;
        assert forall|i: int| 0 <= i < one@.len() implies one@[i] == other@[i] by {
            if i < 4 * (w * h) {
                let p = i / 4;
                let k = i % 4;
                assert(0 < w && 0 < h) by (nonlinear_arith)
                    requires
                        0 <= i < 4 * (w * h),
                        0 <= w,
                        0 <= h,
                ;
                let x = p % w;
                let y = p / w;
                assert(p == y * w + x && 0 <= x < w && 0 <= y < h) by (nonlinear_arith)
                    requires
                        0 <= p < w * h,
                        0 < w,
                        x == p % w,
                        y == p / w,
                ;
                assert(self.has(x, y));
                assert(pixel_index(w, x, y) == 4 * p);
                assert(one.cell(x, y) == other.cell(x, y));
            }
        }
        assert(one@ =~= other@);
    }

    /// A store repainted with nothing is repainted.
    pub proof fn lemma_repainted_self(self)
        ensures
            self.repainted(self, nothing()),
    {
    }

    /// Repainting leaves the full viewport where it was.
    pub proof fn lemma_repainted_full(self, after: Buffer, paint: Paint)
        requires
            self.repainted(after, paint),
        ensures
            after.full() == self.full(),
    {
    }

    /// Repainting a repainted store with the same paint changes no byte.
    pub proof fn lemma_repainted_again(self, mid: Buffer, after: Buffer, paint: Paint)
        requires
            self.repainted(mid, paint),
            mid.repainted(after, paint),
        ensures
            after@ == mid@,
    {
        self.lemma_repainted_twice(mid, after, paint, paint);
        self.lemma_repainted_alike(after, over(paint, paint), paint);
        self.lemma_repainted_unique(after, mid, paint);
    }

    /// A paint that colours nothing leaves every byte as it was.
    pub proof fn lemma_repainted_nothing(self, after: Buffer)
        requires
            self.repainted(after, nothing()),
        ensures
            after@ == self@,
    {
        assert(self.repainted(self, nothing()));
        self.lemma_repainted_unique(after, self, nothing());
    }

    /// Takes `data` as the pixels of a store of `size.0` by `size.1` pixels.
    /// Fewer than four bytes per pixel are refused.
    pub fn new(data: Vec<u8>, size: (u32, u32)) -> (r: Result<Buffer, BufferError>)
        ensures
            r is Ok <==> 4 * (size.0 * size.1) <= data@.len(),
            r matches Ok(b) ==> b.wf() && b@ == data@ && b.spec_width() == size.0
                && b.spec_height() == size.1,
            r matches Err(e) ==> e == BufferError::OutOfBounds,
    {
        assert(size.0 * size.1 <= 0xffff_ffff * 0xffff_ffff) by (nonlinear_arith)
            requires
                0 <= size.0 <= 0xffff_ffff,
                0 <= size.1 <= 0xffff_ffff,
        ;
        let pixels: u128 = size.0 as u128 * size.1 as u128;
        if 4 * pixels > data.len() as u128 {
            return Err(BufferError::OutOfBounds);
        }
        Ok(Buffer { data, width: size.0, height: size.1 })
    }

    /// The native width in pixels.
    #[verifier::when_used_as_spec(spec_width)]
    pub fn width(&self) -> (w: u32)
        ensures
            w == self.spec_width(),
    {
        self.width
    }

    /// The native height in pixels.
    #[verifier::when_used_as_spec(spec_height)]
    pub fn height(&self) -> (h: u32)
        ensures
            h == self.spec_height(),
    {
        self.height
    }

    /// The bytes of the store.
    pub fn as_bytes(&self) -> (bytes: &Vec<u8>)
        ensures
            bytes@ == self@,
    {
        &self.data
    }

    /// Gives the bytes back.
    pub fn into_bytes(self) -> (bytes: Vec<u8>)
        ensures
            bytes@ == self@,
    {
        self.data
    }

    /// The viewport that spans the whole store.
    pub fn viewport(&self) -> (v: Viewport)
        ensures
            v == self.full(),
            v.wf(),
            v.spec_origin() == (0u32, 0u32),
            v.spec_dimensions() == (self.spec_width(), self.spec_height()),
            self.holds(v),
    {
        Viewport { x: 0, y: 0, width: self.width, height: self.height }
    }

    /// The first byte of the pixel at the local position `pos` of `view`, if
    /// a write through `view` reaches that pixel.
    fn locate(&self, view: &Viewport, pos: (u32, u32)) -> (r: Option<usize>)
        ensures
            r is Some <==> self.shows(*view, pos.0 as int, pos.1 as int),
            r matches Some(i) ==> i == pixel_index(
                self.spec_width() as int,
                view.spec_origin().0 + pos.0,
                view.spec_origin().1 + pos.1,
            ) && i + 4 <= self@.len(),
    {
        proof {
            use_type_invariant(self);
            use_type_invariant(view);
        }
        if pos.0 >= view.width || pos.1 >= view.height {
            return None;
        }
        let ax: u64 = view.x as u64 + pos.0 as u64;
        let ay: u64 = view.y as u64 + pos.1 as u64;
        if ax >= self.width as u64 || ay >= self.height as u64 {
            return None;
        }
        proof {
            lemma_pixel_index(self.width as int, self.height as int, ax as int, ay as int);
        }
        assert(ay * self.width <= 0xffff_ffff * 0xffff_ffff) by (nonlinear_arith)
            requires
                0 <= ay <= 0xffff_ffff,
                0 <= self.width <= 0xffff_ffff,
        ;
        let pixel: u64 = ay * self.width as u64 + ax;
        let len = self.data.len();
        assert(4 * pixel + 4 <= len);
        Some((4 * pixel) as usize)
    }

    /// The colour of the pixel at the local position `pos` of `view`.
    pub fn get(&self, view: &Viewport, pos: (u32, u32)) -> (r: Result<Color, BufferError>)
        ensures
            r is Ok <==> self.shows(*view, pos.0 as int, pos.1 as int),
            r matches Ok(c) ==> c == self.color_at(
                view.spec_origin().0 + pos.0,
                view.spec_origin().1 + pos.1,
            ),
            r matches Err(e) ==> e == BufferError::OutOfBounds,
    {
        match self.locate(view, pos) {
            Some(i) => Ok(Color(self.data[i + 2], self.data[i + 1], self.data[i])),
            None => Err(BufferError::OutOfBounds),
        }
    }

    /// Sets the pixel at the local position `pos` of `view` to `c`. A
    /// position outside `view`, or outside the store, is refused and
    /// nothing is written.
    pub fn put(&mut self, view: &Viewport, pos: (u32, u32), c: &Color) -> (r: Result<
        (),
        BufferError,
    >)
        ensures
            r is Ok <==> old(self).shows(*view, pos.0 as int, pos.1 as int),
            r is Ok ==> final(self)@ == old(self).written(
                view.spec_origin().0 + pos.0,
                view.spec_origin().1 + pos.1,
                *c,
            ),
            r matches Err(e) ==> e == BufferError::OutOfBounds && final(self)@ == old(self)@,
            final(self).wf(),
            old(self).repainted(*final(self), view.place(dot(pos.0 as int, pos.1 as int, *c))),
    {
        proof {
            use_type_invariant(&*self);
        }
        match self.locate(view, pos) {
            Some(i) => {
                self.data[i] = c.2;
                self.data[i + 1] = c.1;
                self.data[i + 2] = c.0;
                self.data[i + 3] = 0xff;
                proof {
                    let ax = view.x + pos.0;
                    let ay = view.y + pos.1;
                    let w = self.width as int;
                    let paint = view.place(dot(pos.0 as int, pos.1 as int, *c));
                    lemma_pixel_index(w, self.height as int, ax, ay);
                    assert forall|x: int, y: int| old(self).has(x, y) implies #[trigger] self.cell(
                        x,
                        y,
                    ) == match paint(x, y) {
                        Some(c) => encode(c),
                        None => old(self).cell(x, y),
                    } by {
                        lemma_pixel_index(w, self.height as int, x, y);
                        if x == ax && y == ay {
                            assert(paint(x, y) == Some(*c));
                        } else {
                            assert(paint(x, y) is None);
                            lemma_pixel_apart(w, x, y, ax, ay);
                        }
                    }
                }
                Ok(())
            },
            None => Err(BufferError::OutOfBounds),
        }
    }
}

impl Buffer {
    /// Fills every pixel that `view` addresses with `c`.
    pub fn memset(&mut self, view: &Viewport, c: &Color)
        ensures
            final(self).wf(),
            old(self).repainted(*final(self), view.place(fill(*c))),
    {
        let (columns, rows) = view.dimensions();
        proof {
            old(self).lemma_repainted_alike(*old(self), nothing(), view.place(fill_before(0, 0, *c)));
        }
        let mut y: u32 = 0;
        while y < rows
            invariant
                y <= rows,
                (columns, rows) == view.spec_dimensions(),
                old(self).repainted(*self, view.place(fill_before(y as int, 0, *c))),
            decreases rows - y,
        {
            let mut x: u32 = 0;
            while x < columns
                invariant
                    y < rows,
                    x <= columns,
                    (columns, rows) == view.spec_dimensions(),
                    old(self).repainted(*self, view.place(fill_before(y as int, x as int, *c))),
                decreases columns - x,
            {
                let ghost before = *self;
                let _ = self.put(view, (x, y), c);
                proof {
                    let first = view.place(fill_before(y as int, x as int, *c));
                    let second = view.place(dot(x as int, y as int, *c));
                    old(self).lemma_repainted_twice(before, *self, first, second);
                    old(self).lemma_repainted_alike(
                        *self,
                        over(first, second),
                        view.place(fill_before(y as int, x + 1, *c)),
                    );
                }
                x += 1;
            }
            proof {
                old(self).lemma_repainted_alike(
                    *self,
                    view.place(fill_before(y as int, columns as int, *c)),
                    view.place(fill_before(y + 1, 0, *c)),
                );
            }
            y += 1;
        }
        proof {
            use_type_invariant(&*self);
            old(self).lemma_repainted_alike(
                *self,
                view.place(fill_before(rows as int, 0, *c)),
                view.place(fill(*c)),
            );
        }
    }
}

/// A write through a narrowed viewport reaches the pixel that the same write
/// through the parent reaches once the rectangle's corner is added to the
/// position, and a position outside the rectangle reaches no pixel.
pub proof fn lemma_put_through_subdimensions(
    buf: Buffer,
    view: Viewport,
    rect: (int, int, int, int),
    px: int,
    py: int,
    c: Color,
)
    requires
        buf.wf(),
        view.wf(),
        view.narrowed(rect.0, rect.1, rect.2, rect.3) is Ok,
    ensures
        ({
            let sub = view.narrowed(rect.0, rect.1, rect.2, rect.3)->Ok_0;
            &&& sub.contains(px, py) ==> {
                &&& buf.shows(sub, px, py) == buf.shows(view, rect.0 + px, rect.1 + py)
                &&& sub.spec_origin().0 + px == view.spec_origin().0 + rect.0 + px
                &&& sub.spec_origin().1 + py == view.spec_origin().1 + rect.1 + py
                &&& buf.written(sub.spec_origin().0 + px, sub.spec_origin().1 + py, c)
                    == buf.written(
                    view.spec_origin().0 + rect.0 + px,
                    view.spec_origin().1 + rect.1 + py,
                    c,
                )
            }
            &&& !sub.contains(px, py) ==> !buf.shows(sub, px, py)
        }),
{
}

} // verus!

//! Glyph caching, text rendering and the box outline.
//!
//! A [`Font`] keeps, for one pixel size, the rasterised form of every
//! character it has been asked to cache. Rasterising itself is left to the
//! caller: it hands in a function from characters to [`Outline`]s, the
//! bounding box and coverage samples of a glyph. Text is drawn from the
//! cache alone.

use std::collections::HashMap;
use vstd::prelude::*;
use vstd::string::StringExecFns;
use crate::buffer::{dot, nothing, over, Buffer, BufferError, Paint, Viewport};
use crate::color::Color;
use crate::parse::{final_word, last_word, number, parse_number, ParseError};
use crate::text::chars_of;

verus! {

/// What drawing text can fail with.
#[derive(Clone, Copy, Debug, PartialEq, Eq, Structural)]
#[non_exhaustive]
pub enum DrawError {
    /// The character has no glyph in the cache.
    GlyphNotInCache(char),
}

impl DrawError {
    /// What the error says, as a sentence.
    pub open spec fn sentence(self) -> Seq<char> {
        match self {
            DrawError::GlyphNotInCache(ch) => "glyph for "@.push(ch) + " not in cache"@,
        }
    }

    /// What the error says, for a reader.
    pub fn message(&self) -> (text: String)
        ensures
            text@ == self.sentence(),
    {
        match self {
            DrawError::GlyphNotInCache(ch) => {
                let mut text = String::from_str("glyph for ");
                text.push(*ch);
                text.append(" not in cache");
                text
            },
        }
    }
}

/// The largest number of pixels that the bounding box of a glyph may hold.
pub const MAX_GLYPH_PIXELS: u64 = 0xffff_ffff;

/// How far from the origin, to either side, the pen of a text may come to
/// stand. No text that fits in memory moves the pen this far.
pub const PEN_REACH: i128 = 0x10_0000_0000_0000_0000_0000_0000;

/// A rasterised glyph as contracts see it.
pub struct Glyph {
    /// The top left corner of the bounding box, relative to the pen; either
    /// coordinate may be negative.
    pub origin: (i32, i32),
    /// The extent of the bounding box in pixels, width first.
    pub dimensions: (u32, u32),
    /// The opacity of each pixel of the bounding box in 255ths, row by row.
    pub coverage: Seq<u8>,
}

/// The coverage raster of a bounding box of `width` by `height` pixels
/// that starts out transparent and then takes each sample `(x, y, opacity)`
/// in turn at row `y`, column `x`. A sample outside the box is passed over.
pub open spec fn raster(samples: Seq<(u32, u32, u8)>, width: int, height: int) -> Seq<u8>
    decreases samples.len(),
{
    if samples.len() == 0 {
        Seq::new((width * height) as nat, |i: int| 0u8)
    } else {
        let last = samples.last();
        let rest = raster(samples.drop_last(), width, height);
        if last.0 < width && last.1 < height {
            rest.update(last.0 + last.1 * width, last.2)
        } else {
            rest
        }
    }
}

/// Whether a bounding box `(min.x, min.y, max.x, max.y)` and the samples
/// reported for it can be held as a glyph: the box is not inverted, holds no
/// more than `MAX_GLYPH_PIXELS` pixels, and every sample lies inside it.
pub open spec fn outline_fits(bounds: (i32, i32, i32, i32), samples: Seq<(u32, u32, u8)>) -> bool {
    &&& bounds.0 <= bounds.2
    &&& bounds.1 <= bounds.3
    &&& (bounds.2 - bounds.0) * (bounds.3 - bounds.1) <= MAX_GLYPH_PIXELS
    &&& forall|i: int|
        0 <= i < samples.len() ==> (#[trigger] samples[i]).0 < bounds.2 - bounds.0 && samples[i].1
            < bounds.3 - bounds.1
}

/// The glyph that is cached for an outline at a font size: the bounding
/// box with its raster, or, for an outline without a box, a glyph of no
/// height that is a quarter of the size wide.
pub open spec fn glyph_of(
    bounds: Option<(i32, i32, i32, i32)>,
    samples: Seq<(u32, u32, u8)>,
    size: u32,
) -> Glyph {
    match bounds {
        Some(b) => Glyph {
            origin: (b.0, b.1),
            dimensions: ((b.2 - b.0) as u32, (b.3 - b.1) as u32),
            coverage: raster(samples, b.2 - b.0, b.3 - b.1),
        },
        None => Glyph { origin: (0, 0), dimensions: (size / 4, 0), coverage: Seq::empty() },
    }
}

/// What a rasteriser reports for one character: the pixel bounding box of
/// the glyph, if it has a visible outline, and the coverage samples inside it.
#[derive(Debug)]
pub struct Outline {
    bounds: Option<(i32, i32, i32, i32)>,
    samples: Vec<(u32, u32, u8)>,
}

impl Outline {
    /// An outline with a bounding box fits it.
    #[verifier::type_invariant]
    pub closed spec fn wf(self) -> bool {
        self.bounds matches Some(b) ==> outline_fits(b, self.samples@)
    }

    /// The bounding box `(min.x, min.y, max.x, max.y)`, if there is one.
    pub closed spec fn bounds(self) -> Option<(i32, i32, i32, i32)> {
        self.bounds
    }

    /// The coverage samples `(x, y, opacity)`, positions relative to the
    /// corner of the bounding box, in the order they were reported.
    pub closed spec fn samples(self) -> Seq<(u32, u32, u8)> {
        self.samples@
    }

    /// The glyph that a font of pixel size `size` caches for this outline.
    pub open spec fn glyph(self, size: u32) -> Glyph {
        glyph_of(self.bounds(), self.samples(), size)
    }

    /// An outline of the given bounding box and samples, unless they do not
    /// fit together.
    pub fn new(bounds: Option<(i32, i32, i32, i32)>, samples: Vec<(u32, u32, u8)>) -> (r: Option<
        Outline,
    >)
        ensures
            r is Some <==> (bounds matches Some(b) ==> outline_fits(b, samples@)),
            r matches Some(o) ==> o.wf() && o.bounds() == bounds && o.samples() == samples@,
    {
        match bounds {
            Some(b) => {
                if b.0 > b.2 || b.1 > b.3 {
                    return None;
                }
                let width: u64 = (b.2 as i64 - b.0 as i64) as u64;
                let height: u64 = (b.3 as i64 - b.1 as i64) as u64;
                assert(width * height <= 0xffff_ffff * 0xffff_ffff) by (nonlinear_arith)
                    requires
                        0 <= width <= 0xffff_ffff,
                        0 <= height <= 0xffff_ffff,
                ;
                if width * height > MAX_GLYPH_PIXELS {
                    return None;
                }
                let mut i: usize = 0;
                while i < samples.len()
                    invariant
                        i <= samples.len(),
                        bounds == Some(b),
                        width == b.2 - b.0,
                        height == b.3 - b.1,
                        forall|j: int|
                            0 <= j < i ==> (#[trigger] samples@[j]).0 < width && samples@[j].1
                                < height,
                    decreases samples.len() - i,
                {
                    let sample = samples[i];
                    if sample.0 as u64 >= width || sample.1 as u64 >= height {
                        assert(!(samples@[i as int].0 < b.2 - b.0 && samples@[i as int].1 < b.3
                            - b.1));
                        return None;
                    }
                    i += 1;
                }
                Some(Outline { bounds, samples })
            },
            None => Some(Outline { bounds, samples }),
        }
    }
}

/// A rasterised glyph: where its bounding box lies, how large the box is, and
/// how opaque each of its pixels is.
#[derive(Debug)]
pub struct CachedGlyph {
    dimensions: (u32, u32),
    origin: (i32, i32),
    render: Vec<u8>,
}

impl View for CachedGlyph {
    type V = Glyph;

    closed spec fn view(&self) -> Glyph {
        Glyph { origin: self.origin, dimensions: self.dimensions, coverage: self.render@ }
    }
}

impl Clone for CachedGlyph {
    fn clone(&self) -> (copy: CachedGlyph)
        ensures
            copy@ == self@,
    {
        proof {
            use_type_invariant(self);
        }
        CachedGlyph {
            dimensions: self.dimensions,
            origin: self.origin,
            render: self.render.clone(),
        }
    }
}

impl Glyph {
    /// The raster holds one opacity for each pixel of the bounding box.
    pub open spec fn wf(self) -> bool {
        self.coverage.len() == self.dimensions.0 * self.dimensions.1
    }
}

/// A raster has one entry for each pixel of its box, whatever was sampled.
pub proof fn lemma_raster_len(samples: Seq<(u32, u32, u8)>, width: int, height: int)
    requires
        0 <= width,
        0 <= height,
    ensures
        raster(samples, width, height).len() == width * height,
    decreases samples.len(),
{
    assert(0 <= width * height) by (nonlinear_arith)
        requires
            0 <= width,
            0 <= height,
    ;
    if samples.len() > 0 {
        lemma_raster_len(samples.drop_last(), width, height);
        let last = samples.last();
        if last.0 < width && last.1 < height {
            assert(0 <= last.0 + last.1 * width < width * height) by (nonlinear_arith)
                requires
                    0 <= last.0 < width,
                    0 <= last.1 < height,
            ;
        }
    }
}

/// Whether `samples` hold one sample for each pixel of a box of `width` by
/// `height` pixels, row by row from the top and from left to right in each
/// row.
pub open spec fn scanned(samples: Seq<(u32, u32, u8)>, width: int, height: int) -> bool {
    &&& 0 < width
    &&& 0 <= height
    &&& samples.len() == width * height
    &&& forall|k: int|
        0 <= k < samples.len() ==> (#[trigger] samples[k]).0 == k % width && samples[k].1 == k
            / width
}

/// The raster of samples that were taken pixel by pixel holds the opacity of
/// each sample at the sample's place.
pub proof fn lemma_raster_scanned(samples: Seq<(u32, u32, u8)>, width: int, height: int, k: int)
    requires
        scanned(samples, width, height),
        0 <= k < samples.len(),
    ensures
        raster(samples, width, height).len() == samples.len(),
        raster(samples, width, height)[k] == samples[k].2,
{
    lemma_raster_len(samples, width, height);
    lemma_raster_prefix(samples, width, height, samples.len() as int, k);
    assert(samples.take(samples.len() as int) == samples);
}

/// The raster of the first `n` of the samples of a box that were taken
/// pixel by pixel holds their opacities and is transparent after them.
proof fn lemma_raster_prefix(
    samples: Seq<(u32, u32, u8)>,
    width: int,
    height: int,
    n: int,
    k: int,
)
    requires
        scanned(samples, width, height),
        0 <= n <= samples.len(),
        0 <= k < samples.len(),
    ensures
        raster(samples.take(n), width, height)[k] == if k < n {
            samples[k].2
        } else {
            0u8
        },
    decreases n,
{
    lemma_raster_len(samples.take(n), width, height);
    if n > 0 {
        let front = samples.take(n - 1);
        let last = samples[n - 1];
        assert(samples.take(n).drop_last() == front);
        assert(samples.take(n).last() == last);
        lemma_raster_prefix(samples, width, height, n - 1, k);
        lemma_raster_len(front, width, height);
        let at = n - 1;
        assert(last.0 == at % width && last.1 == at / width);
        assert(at == (at / width) * width + at % width && 0 <= at % width < width) by (nonlinear_arith)
            requires
                0 < width,
                0 <= at,
        ;
        assert(at / width < height) by (nonlinear_arith)
            requires
                0 < width,
                0 <= at < width * height,
        ;
        assert(last.0 + last.1 * width == at);
    }
}

impl CachedGlyph {
    /// The raster holds one opacity for each pixel of the bounding box.
    #[verifier::type_invariant]
    pub closed spec fn wf(self) -> bool {
        self@.wf()
    }

    /// Builds the glyph that a font of pixel size `size` caches for
    /// `outline`.
    pub fn new(outline: &Outline, size: u32) -> (g: CachedGlyph)
        ensures
            g@ == outline.glyph(size),
            g@.wf(),
    {
        proof {
            use_type_invariant(outline);
        }
        match outline.bounds {
            Some(b) => {
                let width: u32 = (b.2 as i64 - b.0 as i64) as u32;
                let height: u32 = (b.3 as i64 - b.1 as i64) as u32;
                let pixels: usize = (width as u64 * height as u64) as usize;
                let mut render: Vec<u8> = Vec::new();
                let mut n: usize = 0;
                while n < pixels
                    invariant
                        n <= pixels,
                        render@ == Seq::new(n as nat, |i: int| 0u8),
                    decreases pixels - n,
                {
                    render.push(0);
                    n += 1;
                }
                let ghost w = width as int;
                let ghost h = height as int;
                let mut i: usize = 0;
                while i < outline.samples.len()
                    invariant
                        i <= outline.samples.len(),
                        w == width,
                        h == height,
                        w * h == pixels,
                        outline_fits(b, outline.samples@),
                        w == b.2 - b.0,
                        h == b.3 - b.1,
                        render@ == raster(outline.samples@.take(i as int), w, h),
                    decreases outline.samples.len() - i,
                {
                    let sample = outline.samples[i];
                    proof {
                        lemma_raster_len(outline.samples@.take(i as int), w, h);
                        assert(sample.0 + sample.1 * w < w * h) by (nonlinear_arith)
                            requires
                                0 <= sample.0 < w,
                                0 <= sample.1 < h,
                        ;
                        assert(0 <= sample.1 * w) by (nonlinear_arith)
                            requires
                                0 <= sample.1,
                                0 <= w,
                        ;
                        assert(outline.samples@.take(i + 1).drop_last() == outline.samples@.take(
                            i as int,
                        ));
                    }
                    let at: usize = sample.0 as usize + sample.1 as usize * width as usize;
                    render[at] = sample.2;
                    i += 1;
                }
                proof {
                    assert(outline.samples@.take(i as int) == outline.samples@);
                    lemma_raster_len(outline.samples@, w, h);
                }
                CachedGlyph { dimensions: (width, height), origin: (b.0, b.1), render }
            },
            None => CachedGlyph { dimensions: (size / 4, 0), origin: (0, 0), render: Vec::new() },
        }
    }
}

/// A per-size cache of rasterised glyphs, keyed by character.
#[derive(Debug)]
pub struct Font {
    glyphs: HashMap<u32, CachedGlyph>,
    size: u32,
}

/// The value that stands for `v` in a `u32`: `v` itself where it fits, the
/// nearest bound where it does not.
pub open spec fn clamp_u32(v: int) -> u32 {
    if v < 0 {
        0
    } else if v > u32::MAX {
        u32::MAX
    } else {
        v as u32
    }
}

/// How far the pen has moved after `glyphs`: each glyph moves it by its
/// width and by the horizontal offset of its bounding box.
pub open spec fn advance(glyphs: Seq<Glyph>) -> int
    decreases glyphs.len(),
{
    if glyphs.len() == 0 {
        0
    } else {
        advance(glyphs.drop_last()) + glyphs.last().dimensions.0 + glyphs.last().origin.0
    }
}

/// The least vertical offset of a bounding box among `glyphs`, or zero if
/// none lies above the pen.
pub open spec fn baseline(glyphs: Seq<Glyph>) -> int
    decreases glyphs.len(),
{
    if glyphs.len() == 0 {
        0
    } else {
        let rest = baseline(glyphs.drop_last());
        if glyphs.last().origin.1 < rest {
            glyphs.last().origin.1 as int
        } else {
            rest
        }
    }
}

/// The paint of the part of `g` that precedes row `row`, column `col` of its
/// bounding box, for a pen at `(left, top)`: each pixel of the box shows
/// `fg` blended over `bg` by the pixel's coverage.
pub open spec fn glyph_paint_before(
    g: Glyph,
    left: int,
    top: int,
    bg: Color,
    fg: Color,
    row: int,
    col: int,
) -> Paint {
    |px: int, py: int|
        {
            let gx = px - left - g.origin.0;
            let gy = py - top - g.origin.1;
            if 0 <= gx < g.dimensions.0 && 0 <= gy < g.dimensions.1 && (gy < row || (gy == row
                && gx < col)) {
                Some(bg.blended(fg, g.coverage[gy * g.dimensions.0 + gx]))
            } else {
                None
            }
        }
}

/// The paint of `g` for a pen at `(left, top)`.
pub open spec fn glyph_paint(g: Glyph, left: int, top: int, bg: Color, fg: Color) -> Paint {
    glyph_paint_before(g, left, top, bg, fg, g.dimensions.1 as int, 0)
}

/// The paint of `glyphs` set left to right from a pen at `(0, top)`. Where
/// two bounding boxes overlap, the later glyph shows.
pub open spec fn text_paint(glyphs: Seq<Glyph>, top: int, bg: Color, fg: Color) -> Paint
    decreases glyphs.len(),
{
    if glyphs.len() == 0 {
        nothing()
    } else {
        over(
            text_paint(glyphs.drop_last(), top, bg, fg),
            glyph_paint(glyphs.last(), advance(glyphs.drop_last()), top, bg, fg),
        )
    }
}

/// The pen stays within a band that grows with the number of glyphs.
pub proof fn lemma_advance_bounds(glyphs: Seq<Glyph>)
    ensures
        -0x8000_0000 * glyphs.len() <= advance(glyphs) <= 0x1_8000_0000 * glyphs.len(),
    decreases glyphs.len(),
{
    if glyphs.len() > 0 {
        lemma_advance_bounds(glyphs.drop_last());
    }
}

/// The baseline is never below the pen and never above what `i32` holds.
pub proof fn lemma_baseline_bounds(glyphs: Seq<Glyph>)
    ensures
        -0x8000_0000 <= baseline(glyphs) <= 0,
    decreases glyphs.len(),
{
    if glyphs.len() > 0 {
        lemma_baseline_bounds(glyphs.drop_last());
    }
}

impl CachedGlyph {
    /// Paints this glyph for a pen at the local position `(left, top)` of
    /// `view`: every pixel of the bounding box that `view` addresses shows `fg`
    /// blended over `bg` by the pixel's coverage. Pixels outside are passed over.
    pub fn draw(&self, buf: &mut Buffer, view: &Viewport, pos: (i64, i64), bg: &Color, fg: &Color)
        ensures
            final(buf).wf(),
            old(buf).repainted(
                *final(buf),
                view.place(glyph_paint(self@, pos.0 as int, pos.1 as int, *bg, *fg)),
            ),
    {
        self.paint(buf, view, (pos.0 as i128, pos.1), bg, fg)
    }

    /// Paints this glyph as `draw` does, for a pen that may stand as far
    /// out as long texts move it.
    fn paint(
        &self,
        buf: &mut Buffer,
        view: &Viewport,
        pos: (i128, i64),
        bg: &Color,
        fg: &Color,
    )
        requires
            -PEN_REACH <= pos.0 <= PEN_REACH,
        ensures
            final(buf).wf(),
            old(buf).repainted(
                *final(buf),
                view.place(glyph_paint(self@, pos.0 as int, pos.1 as int, *bg, *fg)),
            ),
    {
        proof {
            use_type_invariant(self);
            use_type_invariant(&*buf);
        }
        let ghost g = self@;
        let ghost left = pos.0 as int;
        let ghost top = pos.1 as int;
        let (width, height) = self.dimensions;
        let total = self.render.len();
        proof {
            old(buf).lemma_repainted_alike(
                *old(buf),
                nothing(),
                view.place(glyph_paint_before(g, left, top, *bg, *fg, 0, 0)),
            );
        }
        let mut n: usize = 0;
        let mut y: u32 = 0;
        while y < height
            invariant
                y <= height,
                g == self@,
                g.wf(),
                g.dimensions == (width, height),
                g.origin == self.origin,
                g.coverage == self.render@,
                left == pos.0,
                top == pos.1,
                -PEN_REACH <= left <= PEN_REACH,
                n == y * width,
                total == width * height,
                buf.wf(),
                old(buf).repainted(
                    *buf,
                    view.place(glyph_paint_before(g, left, top, *bg, *fg, y as int, 0)),
                ),
            decreases height - y,
        {
            let mut x: u32 = 0;
            while x < width
                invariant
                    y < height,
                    x <= width,
                    g == self@,
                    g.wf(),
                    g.dimensions == (width, height),
                    g.origin == self.origin,
                    g.coverage == self.render@,
                    left == pos.0,
                    top == pos.1,
                    -PEN_REACH <= left <= PEN_REACH,
                        n == y * width + x,
                    total == width * height,
                    buf.wf(),
                    old(buf).repainted(
                        *buf,
                        view.place(glyph_paint_before(g, left, top, *bg, *fg, y as int, x as int)),
                    ),
                decreases width - x,
            {
                proof {
                    assert(y * width + x < width * height) by (nonlinear_arith)
                        requires
                            0 <= x < width,
                            0 <= y < height,
                    ;
                }
                let px: i128 = x as i128 + pos.0 + self.origin.0 as i128;
                let py: i128 = y as i128 + pos.1 as i128 + self.origin.1 as i128;
                let ghost before = *buf;
                let ghost first = view.place(
                    glyph_paint_before(g, left, top, *bg, *fg, y as int, x as int),
                );
                let ghost next = view.place(
                    glyph_paint_before(g, left, top, *bg, *fg, y as int, x + 1),
                );
                if 0 <= px && px <= 0xffff_ffff && 0 <= py && py <= 0xffff_ffff {
                    let shade = bg.blend(fg, self.render[n]);
                    let _ = buf.put(view, (px as u32, py as u32), &shade);
                    proof {
                        let second = view.place(dot(px as int, py as int, shade));
                        old(buf).lemma_repainted_twice(before, *buf, first, second);
                        old(buf).lemma_repainted_alike(*buf, over(first, second), next);
                    }
                } else {
                    proof {
                        old(buf).lemma_repainted_alike(*buf, first, next);
                    }
                }
                x += 1;
                n += 1;
            }
            proof {
                old(buf).lemma_repainted_alike(
                    *buf,
                    view.place(glyph_paint_before(g, left, top, *bg, *fg, y as int, width as int)),
                    view.place(glyph_paint_before(g, left, top, *bg, *fg, y + 1, 0)),
                );
                assert((y + 1) * width == y * width + width) by (nonlinear_arith);
            }
            y += 1;
        }
    }
}

impl Clone for Font {
    fn clone(&self) -> (copy: Font)
        ensures
            copy.spec_size() == self.spec_size(),
            copy.cache() == self.cache(),
    {
        let copy = Font { glyphs: self.glyphs.clone(), size: self.size };
        proof {
            assert(copy.cache() =~= self.cache());
        }
        copy
    }
}

/// Distinct characters have distinct code points.
proof fn lemma_char_key(a: char, b: char)
    ensures
        (a as u32 == b as u32) == (a == b),
{
    assert(a as u32 as char == a);
    assert(b as u32 as char == b);
}

impl Font {
    /// The cached glyphs by character.
    pub closed spec fn cache(&self) -> Map<char, Glyph> {
        Map::new(
            |ch: char| self.glyphs@.contains_key(ch as u32),
            |ch: char| self.glyphs@[ch as u32]@,
        )
    }

    /// The pixel size that glyphs are rasterised at.
    pub closed spec fn spec_size(&self) -> u32 {
        self.size
    }

    /// Whether `ch` has a glyph in the cache.
    pub open spec fn has(&self, ch: char) -> bool {
        self.cache().contains_key(ch)
    }

    /// Whether every character of `s` has a glyph in the cache.
    pub open spec fn covers(&self, s: Seq<char>) -> bool {
        forall|i: int| 0 <= i < s.len() ==> self.has(#[trigger] s[i])
    }

    /// Whether `s[i]` is the first character of `s` without a glyph in the
    /// cache.
    pub open spec fn misses_first(&self, s: Seq<char>, i: int) -> bool {
        &&& 0 <= i < s.len()
        &&& !self.has(s[i])
        &&& self.covers(s.take(i))
    }

    /// The cached glyphs of the characters of `s`, in order.
    pub open spec fn glyphs_for(&self, s: Seq<char>) -> Seq<Glyph> {
        Seq::new(s.len(), |i: int| self.cache()[s[i]])
    }

    /// The paint that `draw_text` lays down for `s`, in the local
    /// coordinates of the viewport: the glyphs of `s` from left to right, all
    /// moved down so that the highest bounding box touches the top.
    pub open spec fn text(&self, s: Seq<char>, bg: Color, fg: Color) -> Paint {
        let glyphs = self.glyphs_for(s);
        text_paint(glyphs, -baseline(glyphs), bg, fg)
    }

    /// Whether `after` is this font once `s` was cached with `rasterize`:
    /// of the same size, holding the glyphs held before and, for each
    /// character of `s` that had none, the glyph of an outline that
    /// `rasterize` may return for it.
    pub open spec fn grown<F: Fn(char) -> Outline>(
        &self,
        after: Font,
        s: Seq<char>,
        rasterize: F,
    ) -> bool {
        &&& after.spec_size() == self.spec_size()
        &&& forall|ch: char| #[trigger] after.has(ch) <==> self.has(ch) || s.contains(ch)
        &&& forall|ch: char| #[trigger]
            self.has(ch) ==> after.cache()[ch] == self.cache()[ch]
        &&& forall|ch: char|
            s.contains(ch) && !self.has(ch) ==> exists|o: Outline| #[trigger]
                call_ensures(rasterize, (ch,), o) && after.cache()[ch] == o.glyph(
                    self.spec_size(),
                )
    }

    /// Caching a string a second time leaves the cache as the first time
    /// left it, and with it what `draw_text` paints for any string.
    pub proof fn lemma_cached_twice<F: Fn(char) -> Outline, G: Fn(char) -> Outline>(
        &self,
        once: Font,
        twice: Font,
        s: Seq<char>,
        first: F,
        second: G,
        t: Seq<char>,
        bg: Color,
        fg: Color,
    )
        requires
            self.grown(once, s, first),
            once.grown(twice, s, second),
        ensures
            twice.cache() == once.cache(),
            twice.spec_size() == once.spec_size(),
            twice.text(t, bg, fg) == once.text(t, bg, fg),
    {
        assert forall|c: char| #[trigger]
            twice.cache().dom().contains(c) == once.cache().dom().contains(c) by {
            assert(twice.has(c) <==> once.has(c) || s.contains(c));
            assert(once.has(c) <==> self.has(c) || s.contains(c));
        }
        assert forall|c: char| #[trigger]
            twice.cache().dom().contains(c) implies twice.cache()[c] == once.cache()[c] by {
            assert(twice.has(c));
            assert(once.has(c));
        }
        assert(twice.cache() =~= once.cache());
        assert(twice.glyphs_for(t) =~= once.glyphs_for(t));
    }

    /// A cache that grows keeps what it paints for every string that it
    /// covered before.
    pub proof fn lemma_grown_keeps_text<F: Fn(char) -> Outline>(
        &self,
        after: Font,
        s: Seq<char>,
        rasterize: F,
        t: Seq<char>,
        bg: Color,
        fg: Color,
    )
        requires
            self.grown(after, s, rasterize),
            self.covers(t),
        ensures
            after.covers(t),
            after.glyphs_for(t) == self.glyphs_for(t),
            after.text(t, bg, fg) == self.text(t, bg, fg),
    {
        assert forall|i: int| 0 <= i < t.len() implies after.has(#[trigger] t[i]) && after.cache()[t[i]]
            == self.cache()[t[i]] by {
            assert(self.has(t[i]));
        }
        assert(after.glyphs_for(t) =~= self.glyphs_for(t));
    }

    /// Caching one string and then another grows the cache as caching the
    /// two joined does.
    pub proof fn lemma_grown_twice<F: Fn(char) -> Outline>(
        &self,
        mid: Font,
        after: Font,
        s: Seq<char>,
        t: Seq<char>,
        rasterize: F,
    )
        requires
            self.grown(mid, s, rasterize),
            mid.grown(after, t, rasterize),
        ensures
            self.grown(after, s + t, rasterize),
    {
        assert forall|ch: char| (s + t).contains(ch) == (s.contains(ch) || t.contains(ch)) by {
            vstd::seq_lib::lemma_seq_concat_contains_all_elements(s, t, ch);
            if s.contains(ch) {
                let i = choose|i: int| 0 <= i < s.len() && s[i] == ch;
                assert((s + t)[i] == ch);
            }
            if t.contains(ch) {
                let i = choose|i: int| 0 <= i < t.len() && t[i] == ch;
                assert((s + t)[s.len() + i] == ch);
            }
        }
        assert forall|ch: char| #[trigger] after.has(ch) <==> self.has(ch) || (s + t).contains(
            ch,
        ) by {
            assert(mid.has(ch) <==> self.has(ch) || s.contains(ch));
        }
        assert forall|ch: char| #[trigger] self.has(ch) implies after.cache()[ch]
            == self.cache()[ch] by {
            assert(mid.has(ch));
        }
        assert forall|ch: char| (s + t).contains(ch) && !self.has(ch) implies exists|o: Outline|
            #[trigger] call_ensures(rasterize, (ch,), o) && after.cache()[ch] == o.glyph(
                self.spec_size(),
            ) by {
            assert(mid.has(ch) <==> self.has(ch) || s.contains(ch));
            if s.contains(ch) {
                let o = choose|o: Outline| #[trigger]
                    call_ensures(rasterize, (ch,), o) && mid.cache()[ch] == o.glyph(
                        self.spec_size(),
                    );
                assert(call_ensures(rasterize, (ch,), o) && after.cache()[ch] == o.glyph(
                    self.spec_size(),
                ));
            } else {
                assert(t.contains(ch) && !mid.has(ch));
            }
        }
    }

    /// What `draw_text` paints from a warm cache is what `auto_draw_text`
    /// painted when it warmed the cache: drawn on the same pixels, or drawn
    /// once more over its own result, the string gives the same bytes.
    pub proof fn lemma_warm_draw_matches(
        &self,
        s: Seq<char>,
        bg: Color,
        fg: Color,
        view: Viewport,
        start: Buffer,
        first: Buffer,
        aside: Buffer,
        again: Buffer,
    )
        requires
            start.repainted(first, view.place(self.text(s, bg, fg))),
            start.repainted(aside, view.place(self.text(s, bg, fg))),
            first.repainted(again, view.place(self.text(s, bg, fg))),
        ensures
            aside@ == first@,
            again@ == first@,
    {
        let paint = view.place(self.text(s, bg, fg));
        start.lemma_repainted_unique(aside, first, paint);
        start.lemma_repainted_again(first, again, paint);
    }

    /// Reads a font from the characters of its description.
    pub fn parse_chars(chars: &Vec<char>) -> (r: Result<Font, ParseError>)
        ensures
            r is Ok <==> number(last_word(chars@)) is Some,
            r matches Ok(font) ==> font.spec_size() == number(last_word(chars@))->Some_0
                && font.cache() == Map::<char, Glyph>::empty(),
            r matches Err(e) ==> e == ParseError::FontSize,
    {
        let word = final_word(chars);
        match parse_number(&word) {
            Some(size) => Ok(Font::new(size)),
            None => Err(ParseError::FontSize),
        }
    }

    /// Reads a font from a description of the form `<family> <size>`: the
    /// pixel size is the last word, in decimal digits. The cache starts
    /// empty. A last word that is no such number is refused.
    pub fn parse(s: &str) -> (r: Result<Font, ParseError>)
        ensures
            r is Ok <==> number(last_word(s@)) is Some,
            r matches Ok(font) ==> font.spec_size() == number(last_word(s@))->Some_0
                && font.cache() == Map::<char, Glyph>::empty(),
            r matches Err(e) ==> e == ParseError::FontSize,
    {
        let chars = chars_of(s);
        Font::parse_chars(&chars)
    }

    /// An empty cache for glyphs of `size` pixels.
    pub fn new(size: u32) -> (font: Font)
        ensures
            font.spec_size() == size,
            font.cache() == Map::<char, Glyph>::empty(),
    {
        let font = Font { glyphs: HashMap::new(), size };
        proof {
            assert(font.cache() =~= Map::<char, Glyph>::empty());
        }
        font
    }

    /// The pixel size that glyphs are rasterised at.
    #[verifier::when_used_as_spec(spec_size)]
    pub fn size(&self) -> (size: u32)
        ensures
            size == self.spec_size(),
    {
        self.size
    }

    /// Whether `ch` has a glyph in the cache.
    pub fn is_cached(&self, ch: char) -> (cached: bool)
        ensures
            cached == self.has(ch),
    {
        broadcast use vstd::std_specs::hash::group_hash_axioms;

        let key: u32 = ch as u32;
        self.glyphs.contains_key(&key)
    }

    /// Caches the glyph of `outline` for `ch`, unless `ch` has a glyph
    /// already: a cached glyph is never replaced.
    pub fn cache_outline(&mut self, ch: char, outline: &Outline)
        ensures
            final(self).spec_size() == old(self).spec_size(),
            old(self).has(ch) ==> final(self).cache() == old(self).cache(),
            !old(self).has(ch) ==> final(self).cache() == old(self).cache().insert(
                ch,
                outline.glyph(old(self).spec_size()),
            ),
    {
        broadcast use vstd::std_specs::hash::group_hash_axioms;

        let key: u32 = ch as u32;
        if !self.glyphs.contains_key(&key) {
            let glyph = CachedGlyph::new(outline, self.size);
            self.glyphs.insert(key, glyph);
            proof {
                let grown = old(self).cache().insert(ch, outline.glyph(old(self).spec_size()));
                assert(self.glyphs@ == old(self).glyphs@.insert(key, glyph));
                assert forall|c: char| #[trigger]
                    self.cache().contains_key(c) == grown.contains_key(c) by {
                    lemma_char_key(c, ch);
                }
                assert forall|c: char| #[trigger]
                    self.cache().contains_key(c) implies self.cache()[c] == grown[c] by {
                    lemma_char_key(c, ch);
                }
                assert(self.cache() =~= grown);
            }
        }
    }

    /// Caches a glyph for every character of `s` that has none yet, asking
    /// `rasterize` for the outline of each such character once, in the order
    /// in which the characters first occur. Characters that are cached
    /// already are left as they are, so caching a string a second time
    /// changes nothing.
    pub fn add_str_to_cache<F: Fn(char) -> Outline>(&mut self, s: &str, rasterize: &F)
        requires
            forall|i: int|
                0 <= i < s@.len() && !old(self).has(s@[i]) ==> call_requires(
                    *rasterize,
                    (#[trigger] s@[i],),
                ),
        ensures
            old(self).grown(*final(self), s@, *rasterize),
            final(self).covers(s@),
            old(self).covers(s@) ==> final(self).cache() == old(self).cache(),
    {
        for ch in it: s.chars()
            invariant
                it.seq() == s@,
                forall|i: int|
                    0 <= i < s@.len() && !old(self).has(s@[i]) ==> call_requires(
                        *rasterize,
                        (#[trigger] s@[i],),
                    ),
                old(self).grown(*self, s@.take(it.index() as int), *rasterize),
        {
            let ghost seen = s@.take(it.index() as int);
            let ghost before = *self;
            assert(s@.take(it.index() + 1) == seen.push(ch));
            assert(s@[it.index() as int] == ch);
            if !self.is_cached(ch) {
                assert(!old(self).has(ch));
                let outline = rasterize(ch);
                self.cache_outline(ch, &outline);
                proof {
                    assert forall|c: char| seen.push(ch).contains(c) && !old(self).has(
                        c,
                    ) implies exists|o: Outline| #[trigger]
                        call_ensures(*rasterize, (c,), o) && self.cache()[c] == o.glyph(
                            old(self).spec_size(),
                        ) by {
                        vstd::seq_lib::lemma_seq_contains_after_push(seen, ch, c);
                        if c == ch {
                            assert(call_ensures(*rasterize, (ch,), outline));
                        } else {
                            assert(seen.contains(c));
                        }
                    }
                }
            }
            proof {
                assert forall|c: char| #[trigger]
                    self.has(c) <==> old(self).has(c) || seen.push(ch).contains(c) by {
                    vstd::seq_lib::lemma_seq_contains_after_push(seen, ch, c);
                    assert(before.has(c) <==> old(self).has(c) || seen.contains(c));
                }
                assert forall|c: char| #[trigger] old(self).has(c) implies self.cache()[c] == old(
                    self,
                ).cache()[c] by {
                    assert(before.has(c));
                }
            }
        }
        proof {
            assert(s@.take(s@.len() as int) == s@);
            if old(self).covers(s@) {
                assert forall|c: char| #[trigger] self.has(c) implies old(self).has(c) by {
                    if s@.contains(c) {
                        let i = choose|i: int| 0 <= i < s@.len() && s@[i] == c;
                        assert(old(self).has(s@[i]));
                    }
                }
                assert forall|c: char| #[trigger]
                    self.cache().dom().contains(c) == old(self).cache().dom().contains(c) by {
                    assert(self.has(c) <==> old(self).has(c) || s@.contains(c));
                }
                assert forall|c: char| #[trigger]
                    self.cache().dom().contains(c) implies self.cache()[c] == old(
                    self,
                ).cache()[c] by {
                    assert(self.has(c));
                    assert(old(self).has(c));
                }
                assert(self.cache() =~= old(self).cache());
            }
            assert forall|i: int| 0 <= i < s@.len() implies self.has(#[trigger] s@[i]) by {
                assert(s@.contains(s@[i]));
            }
        }
    }
}

impl Font {
    /// Draws `s` through `view` from the cache alone: the glyphs stand
    /// left to right from the left edge, each pixel of a glyph showing `fg`
    /// blended over `bg` by its coverage, and all are moved down by as much
    /// as the highest bounding box reaches above the pen. Returns the pen's
    /// final position, clamped to `u32`, and the font's pixel size.
    ///
    /// If a character of `s` has no glyph in the cache, the first such
    /// character is reported and nothing is drawn.
    pub fn draw_text(
        &self,
        buf: &mut Buffer,
        view: &Viewport,
        bg: &Color,
        fg: &Color,
        s: &str,
    ) -> (r: Result<(u32, u32), DrawError>)
        ensures
            final(buf).wf(),
            final(buf).spec_width() == old(buf).spec_width(),
            final(buf).spec_height() == old(buf).spec_height(),
            r is Ok <==> self.covers(s@),
            r matches Ok(extent) ==> {
                &&& extent.0 == clamp_u32(advance(self.glyphs_for(s@)))
                &&& extent.1 == self.spec_size()
                &&& old(buf).repainted(*final(buf), view.place(self.text(s@, *bg, *fg)))
            },
            r matches Err(e) ==> {
                &&& exists|i: int| #[trigger]
                    self.misses_first(s@, i) && e == DrawError::GlyphNotInCache(s@[i])
                &&& final(buf)@ == old(buf)@
            },
    {
        broadcast use vstd::std_specs::hash::group_hash_axioms;

        proof {
            use_type_invariant(&*buf);
        }
        let mut glyphs: Vec<&CachedGlyph> = Vec::new();
        let mut off: i32 = 0;
        for ch in it: s.chars()
            invariant
                it.seq() == s@,
                glyphs@.len() == it.index(),
                self.covers(s@.take(it.index() as int)),
                forall|j: int|
                    0 <= j < glyphs@.len() ==> (#[trigger] glyphs@[j])@ == self.cache()[s@[j]],
                off == baseline(self.glyphs_for(s@.take(it.index() as int))),
                *buf == *old(buf),
                buf.wf(),
        {
            let ghost seen = s@.take(it.index() as int);
            let ghost more = s@.take(it.index() + 1);
            assert(s@[it.index() as int] == ch);
            let key: u32 = ch as u32;
            match self.glyphs.get(&key) {
                Some(glyph) => {
                    glyphs.push(glyph);
                    if glyph.origin.1 < off {
                        off = glyph.origin.1;
                    }
                    proof {
                        assert(self.has(ch));
                        assert(glyph@ == self.cache()[ch]);
                        assert(self.glyphs_for(more).drop_last() == self.glyphs_for(seen));
                        assert(self.glyphs_for(more).last() == glyph@);
                        assert forall|i: int| 0 <= i < more.len() implies self.has(
                            #[trigger] more[i],
                        ) by {
                            if i < seen.len() {
                                assert(self.has(seen[i]));
                            }
                        }
                    }
                },
                None => {
                    proof {
                        assert(!self.has(ch));
                        assert(self.misses_first(s@, it.index() as int));
                    }
                    return Err(DrawError::GlyphNotInCache(ch));
                },
            }
        }
        let ghost gs = self.glyphs_for(s@);
        let ghost top = -baseline(gs);
        proof {
            assert(s@.take(s@.len() as int) == s@);
            lemma_baseline_bounds(gs);
            old(buf).lemma_repainted_alike(
                *old(buf),
                nothing(),
                view.place(text_paint(gs.take(0), top, *bg, *fg)),
            );
        }
        let mut pen: i128 = 0;
        let mut k: usize = 0;
        while k < glyphs.len()
            invariant
                k <= glyphs@.len(),
                glyphs@.len() == gs.len(),
                gs == self.glyphs_for(s@),
                forall|j: int| 0 <= j < glyphs@.len() ==> (#[trigger] glyphs@[j])@ == gs[j],
                pen == advance(gs.take(k as int)),
                top == -off,
                -0x8000_0000 <= off <= 0,
                buf.wf(),
                old(buf).repainted(*buf, view.place(text_paint(gs.take(k as int), top, *bg, *fg))),
            decreases glyphs@.len() - k,
        {
            let glyph = glyphs[k];
            let ghost before = *buf;
            let ghost done = gs.take(k as int);
            let ghost more = gs.take(k + 1);
            proof {
                lemma_advance_bounds(done);
                assert(more.drop_last() == done);
                assert(more.last() == glyph@);
            }
            glyph.paint(buf, view, (pen, -(off as i64)), bg, fg);
            proof {
                let first = view.place(text_paint(done, top, *bg, *fg));
                let second = view.place(glyph_paint(glyph@, pen as int, top, *bg, *fg));
                old(buf).lemma_repainted_twice(before, *buf, first, second);
                old(buf).lemma_repainted_alike(
                    *buf,
                    over(first, second),
                    view.place(text_paint(more, top, *bg, *fg)),
                );
            }
            pen = pen + glyph.dimensions.0 as i128 + glyph.origin.0 as i128;
            k += 1;
        }
        proof {
            assert(gs.take(k as int) == gs);
        }
        let width: u32 = if pen < 0 {
            0
        } else if pen > 0xffff_ffff {
            0xffff_ffff
        } else {
            pen as u32
        };
        Ok((width, self.size))
    }

    /// Caches `s` with `rasterize` and then draws it as `draw_text` does.
    /// Since every character is cached by then, drawing cannot fail.
    pub fn auto_draw_text<F: Fn(char) -> Outline>(
        &mut self,
        buf: &mut Buffer,
        view: &Viewport,
        bg: &Color,
        fg: &Color,
        s: &str,
        rasterize: &F,
    ) -> (r: Result<(u32, u32), DrawError>)
        requires
            forall|i: int|
                0 <= i < s@.len() && !old(self).has(s@[i]) ==> call_requires(
                    *rasterize,
                    (#[trigger] s@[i],),
                ),
        ensures
            old(self).grown(*final(self), s@, *rasterize),
            final(self).covers(s@),
            old(self).covers(s@) ==> final(self).cache() == old(self).cache(),
            final(buf).wf(),
            r matches Ok(extent) && {
                &&& extent.0 == clamp_u32(advance(final(self).glyphs_for(s@)))
                &&& extent.1 == old(self).spec_size()
                &&& old(buf).repainted(*final(buf), view.place(final(self).text(s@, *bg, *fg)))
            },
    {
        self.add_str_to_cache(s, rasterize);
        self.draw_text(buf, view, bg, fg, s)
    }
}

/// The paint of the outline of a box of `dim.0` by `dim.1` pixels whose top
/// left corner is the origin: the top and bottom rows and, if `sides` holds,
/// the left and right columns.
pub open spec fn box_paint(dim: (u32, u32), sides: bool, c: Color) -> Paint {
    box_part(dim, dim.0 as int, if sides { dim.1 as int } else { 0 }, c)
}

/// The paint of the first `cols` pixels of the top and bottom rows and the
/// first `rows` pixels of the left and right columns of such a box.
pub open spec fn box_part(dim: (u32, u32), cols: int, rows: int, c: Color) -> Paint {
    |px: int, py: int|
        if (0 <= px < cols && (py == 0 || py == dim.1 - 1)) || (0 <= py < rows && (px == 0 || px
            == dim.0 - 1)) {
            Some(c)
        } else {
            None
        }
}

/// Draws the outline of a box of `dim.0` by `dim.1` pixels, one pixel thick,
/// from the top left corner of `view`.
///
/// The top and bottom rows are drawn as far as `view` reaches. The left and
/// right columns are drawn only if the right column lies within reach, and
/// then as far down as `view` reaches. The call succeeds exactly when the
/// whole outline was within reach.
pub fn draw_box(buf: &mut Buffer, view: &Viewport, c: &Color, dim: (u32, u32)) -> (r: Result<
    (),
    BufferError,
>)
    requires
        dim.0 > 0,
        dim.1 > 0,
    ensures
        final(buf).wf(),
        r is Ok <==> old(buf).shows(*view, dim.0 - 1, dim.1 - 1),
        r matches Err(e) ==> e == BufferError::OutOfBounds,
        old(buf).repainted(
            *final(buf),
            view.place(box_paint(dim, old(buf).shows(*view, dim.0 - 1, 0), *c)),
        ),
{
    proof {
        use_type_invariant(&*buf);
        old(buf).lemma_repainted_alike(
            *old(buf),
            nothing(),
            view.place(box_part(dim, 0, 0, *c)),
        );
    }
    let ghost sides = old(buf).shows(*view, dim.0 - 1, 0);
    let ghost goal = view.place(box_paint(dim, sides, *c));
    let mut x: u32 = 0;
    while x < dim.0
        invariant
            x <= dim.0,
            dim.1 > 0,
            buf.wf(),
            old(buf).repainted(*buf, view.place(box_part(dim, x as int, 0, *c))),
        decreases dim.0 - x,
    {
        let ghost start = *buf;
        let _ = buf.put(view, (x, 0), c);
        let ghost mid = *buf;
        let _ = buf.put(view, (x, dim.1 - 1), c);
        proof {
            let first = view.place(box_part(dim, x as int, 0, *c));
            let top = view.place(dot(x as int, 0, *c));
            let bottom = view.place(dot(x as int, dim.1 - 1, *c));
            old(buf).lemma_repainted_twice(start, mid, first, top);
            old(buf).lemma_repainted_twice(mid, *buf, over(first, top), bottom);
            old(buf).lemma_repainted_alike(
                *buf,
                over(over(first, top), bottom),
                view.place(box_part(dim, x + 1, 0, *c)),
            );
        }
        x += 1;
    }
    let mut y: u32 = 0;
    while y < dim.1
        invariant
            y <= dim.1,
            dim.0 > 0,
            dim.1 > 0,
            buf.wf(),
            sides == old(buf).shows(*view, dim.0 - 1, 0),
            goal == view.place(box_paint(dim, sides, *c)),
            y > 0 ==> old(buf).shows(*view, dim.0 - 1, y - 1),
            old(buf).repainted(*buf, view.place(box_part(dim, dim.0 as int, y as int, *c))),
        decreases dim.1 - y,
    {
        let ghost start = *buf;
        let ghost first = view.place(box_part(dim, dim.0 as int, y as int, *c));
        let left = buf.put(view, (0, y), c);
        if left.is_err() {
            proof {
                old(buf).lemma_repainted_alike(*buf, first, goal);
            }
            return Err(BufferError::OutOfBounds);
        }
        let ghost mid = *buf;
        let ghost second = view.place(dot(0, y as int, *c));
        let right = buf.put(view, (dim.0 - 1, y), c);
        proof {
            old(buf).lemma_repainted_twice(start, mid, first, second);
        }
        if right.is_err() {
            proof {
                assert(y == 0);
                old(buf).lemma_repainted_alike(*buf, over(first, second), goal);
            }
            return Err(BufferError::OutOfBounds);
        }
        proof {
            let third = view.place(dot(dim.0 - 1, y as int, *c));
            old(buf).lemma_repainted_twice(mid, *buf, over(first, second), third);
            old(buf).lemma_repainted_alike(
                *buf,
                over(over(first, second), third),
                view.place(box_part(dim, dim.0 as int, y + 1, *c)),
            );
        }
        y += 1;
    }
    Ok(())
}

/// The pixel size of a font that is not described.
pub const DEFAULT_FONT_SIZE: u32 = 72;

impl Default for Font {
    /// An empty cache for glyphs of the default size.
    fn default() -> (font: Font)
        ensures
            font.spec_size() == DEFAULT_FONT_SIZE,
            font.cache() == Map::<char, Glyph>::empty(),
    {
        Font::new(DEFAULT_FONT_SIZE)
    }
}

impl std::str::FromStr for Font {
    type Err = ParseError;

    fn from_str(s: &str) -> (r: Result<Font, ParseError>)
        ensures
            r is Ok <==> number(last_word(s@)) is Some,
            r matches Ok(font) ==> font.spec_size() == number(last_word(s@))->Some_0
                && font.cache() == Map::<char, Glyph>::empty(),
            r matches Err(e) ==> e == ParseError::FontSize,
    {
        Font::parse(s)
    }
}

} // verus!

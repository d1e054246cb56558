//! Minimal software canvas with RGBA8 storage, row-major, four bytes per
//! pixel. Opaque drawing (rect fills, 1px outlines, Bresenham lines) is
//! exact integer work and lives here; translucent source-over blending is
//! computed by the caller and written back through [`PixelCanvas::set_pixel`].

use vstd::prelude::*;

verus! {

/// An opaque colour: drawing it replaces a pixel with these channels and
/// full alpha.
#[derive(Clone, Copy, PartialEq, Eq, Debug)]
pub struct Rgb {
    pub red: u8,
    pub green: u8,
    pub blue: u8,
}

impl Rgb {
    pub fn opaque(red: u8, green: u8, blue: u8) -> (color: Self)
        ensures
            color.red == red,
            color.green == green,
            color.blue == blue,
    {
        Rgb { red, green, blue }
    }

    /// Byte `channel` of this colour as stored on the canvas (alpha 255).
    pub open spec fn channel(self, channel: int) -> u8 {
        if channel == 0 {
            self.red
        } else if channel == 1 {
            self.green
        } else if channel == 2 {
            self.blue
        } else {
            255u8
        }
    }
}

/// A decoded RGBA image used as a blit source (item icons, paperdoll art).
pub struct RgbaImage {
    pub width: usize,
    pub height: usize,
    pub pixels: Vec<u8>,
}

pub struct PixelCanvas {
    width: usize,
    height: usize,
    pixels: Vec<u8>,
}

/// Offset of byte `channel` of pixel `(x, y)` in a row-major RGBA8 buffer.
pub open spec fn byte_offset(width: int, x: int, y: int, channel: int) -> int {
    (y * width + x) * 4 + channel
}

pub open spec fn in_rect(px: int, py: int, x: int, y: int, width: int, height: int) -> bool {
    x <= px < x + width && y <= py < y + height
}

/// Distinct pixel/channel coordinates map to distinct byte offsets.
proof fn lemma_offset_injective(w: int, x1: int, y1: int, c1: int, x2: int, y2: int, c2: int)
    requires
        0 <= x1 < w,
        0 <= x2 < w,
        0 <= y1,
        0 <= y2,
        0 <= c1 < 4,
        0 <= c2 < 4,
        byte_offset(w, x1, y1, c1) == byte_offset(w, x2, y2, c2),
    ensures
        x1 == x2 && y1 == y2 && c1 == c2,
{
    let p1 = y1 * w + x1;
    let p2 = y2 * w + x2;
    vstd::arithmetic::div_mod::lemma_fundamental_div_mod_converse(p1 * 4 + c1, 4, p1, c1);
    vstd::arithmetic::div_mod::lemma_fundamental_div_mod_converse(p2 * 4 + c2, 4, p2, c2);
    vstd::arithmetic::div_mod::lemma_fundamental_div_mod_converse(p1, w, y1, x1);
    vstd::arithmetic::div_mod::lemma_fundamental_div_mod_converse(p2, w, y2, x2);
}

/// An in-bounds pixel's four bytes lie inside the buffer.
proof fn lemma_offset_in_bounds(w: int, h: int, x: int, y: int, c: int)
    requires
        0 <= x < w,
        0 <= y < h,
        0 <= c < 4,
    ensures
        0 <= byte_offset(w, x, y, c) < w * h * 4,
        0 <= y * w + x < w * h,
{
    assert(0 <= y * w + x < w * h) by (nonlinear_arith)
        requires
            0 <= x < w,
            0 <= y < h,
    ;
}

impl PixelCanvas {
    pub closed spec fn spec_width(&self) -> nat {
        self.width as nat
    }

    pub closed spec fn spec_height(&self) -> nat {
        self.height as nat
    }

    pub closed spec fn spec_bytes(&self) -> Seq<u8> {
        self.pixels@
    }

    /// The buffer holds exactly four bytes per pixel.
    pub open spec fn wf(&self) -> bool {
        self.spec_bytes().len() == self.spec_width() * self.spec_height() * 4
    }

    /// Byte `channel` (0 red, 1 green, 2 blue, 3 alpha) of pixel `(x, y)`.
    pub open spec fn byte_at(&self, x: int, y: int, channel: int) -> u8 {
        self.spec_bytes()[byte_offset(self.spec_width() as int, x, y, channel)]
    }

    pub open spec fn in_bounds(&self, x: int, y: int) -> bool {
        0 <= x < self.spec_width() && 0 <= y < self.spec_height()
    }

    /// A square canvas, fully transparent black.
    pub fn new(size: usize) -> (canvas: Self)
        requires
            size * size * 4 <= usize::MAX,
        ensures
            canvas.wf(),
            canvas.spec_width() == size,
            canvas.spec_height() == size,
            forall|i: int| 0 <= i < canvas.spec_bytes().len() ==> canvas.spec_bytes()[i] == 0,
            forall|px: int, py: int, c: int|
                0 <= px < size && 0 <= py < size && 0 <= c < 4 ==> #[trigger] canvas.byte_at(px, py, c) == 0,
    {
        Self::with_dimensions(size, size)
    }

    /// A `width` x `height` canvas, fully transparent black.
    pub fn with_dimensions(width: usize, height: usize) -> (canvas: Self)
        requires
            width * height * 4 <= usize::MAX,
        ensures
            canvas.wf(),
            canvas.spec_width() == width,
            canvas.spec_height() == height,
            forall|i: int| 0 <= i < canvas.spec_bytes().len() ==> canvas.spec_bytes()[i] == 0,
            forall|px: int, py: int, c: int|
                0 <= px < width && 0 <= py < height && 0 <= c < 4 ==> #[trigger] canvas.byte_at(px, py, c) == 0,
    {
        assert(width * height <= width * height * 4) by (nonlinear_arith);
        let len = width * height * 4;
        let mut pixels: Vec<u8> = Vec::with_capacity(len);
        let mut i: usize = 0;
        while i < len
            invariant
                i <= len,
                pixels@.len() == i,
                forall|j: int| 0 <= j < i ==> pixels@[j] == 0,
            decreases len - i,
        {
            pixels.push(0u8);
            i = i + 1;
        }
        let canvas = PixelCanvas { width, height, pixels };
        proof {
            assert forall|px: int, py: int, c: int|
                0 <= px < width && 0 <= py < height && 0 <= c < 4 implies #[trigger] canvas.byte_at(px, py, c)
                == 0 by {
                lemma_offset_in_bounds(width as int, height as int, px, py, c);
            }
        }
        canvas
    }

    pub fn width(&self) -> (width: usize)
        ensures
            width == self.spec_width(),
    {
        self.width
    }

    pub fn height(&self) -> (height: usize)
        ensures
            height == self.spec_height(),
    {
        self.height
    }

    /// The raw RGBA8 buffer, row-major.
    pub fn into_rgba_bytes(self) -> (bytes: Vec<u8>)
        ensures
            bytes@ == self.spec_bytes(),
            self.wf() ==> bytes@.len() == self.spec_width() * self.spec_height() * 4,
            forall|x: int, y: int, c: int|
                0 <= x < self.spec_width() && 0 <= y < self.spec_height() && 0 <= c < 4 ==> #[trigger] bytes@[(y
                    * self.spec_width() + x) * 4 + c] == self.byte_at(x, y, c),
    {
        self.pixels
    }

    /// The four bytes of pixel `(x, y)`, or `None` off the canvas.
    pub fn pixel_at(&self, x: i32, y: i32) -> (pixel: Option<[u8; 4]>)
        requires
            self.wf(),
        ensures
            pixel is Some <==> self.in_bounds(x as int, y as int),
            pixel matches Some(p) ==> forall|c: int|
                0 <= c < 4 ==> p@[c] == self.byte_at(x as int, y as int, c),
    {
        if x < 0 || y < 0 || x as usize >= self.width || y as usize >= self.height {
            return None;
        }
        let (xu, yu) = (x as usize, y as usize);
        let _total = self.pixels.len();
        proof {
            lemma_offset_in_bounds(self.width as int, self.height as int, xu as int, yu as int, 3);
            assert(self.pixels@.len() <= usize::MAX);
        }
        let offset = (yu * self.width + xu) * 4;
        Some([self.pixels[offset], self.pixels[offset + 1], self.pixels[offset + 2], self.pixels[offset + 3]])
    }

    /// Overwrites pixel `(x, y)` with `rgba`; a pixel off the canvas is
    /// silently skipped.
    pub fn set_pixel(&mut self, x: i32, y: i32, rgba: [u8; 4])
        requires
            old(self).wf(),
        ensures
            final(self).wf(),
            same_layout(*old(self), *final(self)),
            final(self).spec_width() == old(self).spec_width(),
            final(self).spec_height() == old(self).spec_height(),
            forall|px: int, py: int, c: int|
                0 <= px < old(self).spec_width() && 0 <= py < old(self).spec_height() && 0 <= c < 4
                    ==> #[trigger] final(self).byte_at(px, py, c) == if px == x && py == y {
                    rgba@[c]
                } else {
                    old(self).byte_at(px, py, c)
                },
    {
        if x < 0 || y < 0 || x as usize >= self.width || y as usize >= self.height {
            return;
        }
        let (xu, yu) = (x as usize, y as usize);
        let _total = self.pixels.len();
        let ghost w = self.width as int;
        let ghost h = self.height as int;
        proof {
            lemma_offset_in_bounds(w, h, xu as int, yu as int, 3);
            assert(self.pixels@.len() <= usize::MAX);
        }
        let offset = (yu * self.width + xu) * 4;
        let ghost before = self.pixels@;
        self.pixels.set(offset, rgba[0]);
        self.pixels.set(offset + 1, rgba[1]);
        self.pixels.set(offset + 2, rgba[2]);
        self.pixels.set(offset + 3, rgba[3]);
        assert forall|px: int, py: int, c: int|
            0 <= px < w && 0 <= py < h && 0 <= c < 4 implies #[trigger] self.byte_at(px, py, c) == if px
                == x && py == y {
                rgba@[c]
            } else {
                before[byte_offset(w, px, py, c)]
            } by {
            lemma_offset_in_bounds(w, h, px, py, c);
            if !(px == x && py == y) {
                let o = byte_offset(w, px, py, c);
                if o >= offset && o < offset + 4 {
                    lemma_offset_injective(w, px, py, c, xu as int, yu as int, o - offset);
                }
            }
        }
    }

    /// Paints pixel `(x, y)` with an opaque colour (skipped off the canvas).
    /// Source-over blending of an opaque source leaves exactly the source
    /// channels and full alpha.
    pub fn put_opaque(&mut self, x: i32, y: i32, color: Rgb)
        requires
            old(self).wf(),
        ensures
            final(self).wf(),
            same_layout(*old(self), *final(self)),
            final(self).spec_width() == old(self).spec_width(),
            final(self).spec_height() == old(self).spec_height(),
            forall|px: int, py: int, c: int|
                0 <= px < old(self).spec_width() && 0 <= py < old(self).spec_height() && 0 <= c < 4
                    ==> #[trigger] final(self).byte_at(px, py, c) == if px == x && py == y {
                    color.channel(c)
                } else {
                    old(self).byte_at(px, py, c)
                },
    {
        let rgba = [color.red, color.green, color.blue, 255u8];
        self.set_pixel(x, y, rgba);
    }

    /// Fills the `width` x `height` rectangle at `(x, y)` with an opaque
    /// colour, clipped to the canvas; a non-positive size draws nothing.
    pub fn fill_rect(&mut self, x: i32, y: i32, width: i32, height: i32, color: Rgb)
        requires
            old(self).wf(),
            i32::MIN <= x + width <= i32::MAX,
            i32::MIN <= y + height <= i32::MAX,
        ensures
            final(self).wf(),
            same_layout(*old(self), *final(self)),
            final(self).spec_width() == old(self).spec_width(),
            final(self).spec_height() == old(self).spec_height(),
            forall|px: int, py: int, c: int|
                0 <= px < old(self).spec_width() && 0 <= py < old(self).spec_height() && 0 <= c < 4
                    ==> #[trigger] final(self).byte_at(px, py, c) == if in_rect(
                    px,
                    py,
                    x as int,
                    y as int,
                    width as int,
                    height as int,
                ) {
                    color.channel(c)
                } else {
                    old(self).byte_at(px, py, c)
                },
    {
        let ghost start = *self;
        let y_end = y + height;
        let x_end = x + width;
        let mut py = y;
        while py < y_end
            invariant
                self.wf(),
                self.spec_width() == start.spec_width(),
                self.spec_height() == start.spec_height(),
                y <= py,
                py <= y_end || py == y,
                y_end == y + height,
                x_end == x + width,
                forall|px: int, qy: int, c: int|
                    0 <= px < start.spec_width() && 0 <= qy < start.spec_height() && 0 <= c < 4
                        ==> #[trigger] self.byte_at(px, qy, c) == if in_rect(
                        px,
                        qy,
                        x as int,
                        y as int,
                        width as int,
                        py - y,
                    ) {
                        color.channel(c)
                    } else {
                        start.byte_at(px, qy, c)
                    },
            decreases y_end - py,
        {
            let mut px = x;
            while px < x_end
                invariant
                    self.wf(),
                    self.spec_width() == start.spec_width(),
                    self.spec_height() == start.spec_height(),
                    y <= py < y_end,
                    x <= px,
                    px <= x_end || px == x,
                    y_end == y + height,
                    x_end == x + width,
                    forall|qx: int, qy: int, c: int|
                        0 <= qx < start.spec_width() && 0 <= qy < start.spec_height() && 0 <= c < 4
                            ==> #[trigger] self.byte_at(qx, qy, c) == if in_rect(
                            qx,
                            qy,
                            x as int,
                            y as int,
                            width as int,
                            py - y,
                        ) || (qy == py && x <= qx < px) {
                            color.channel(c)
                        } else {
                            start.byte_at(qx, qy, c)
                        },
                decreases x_end - px,
            {
                self.put_opaque(px, py, color);
                px = px + 1;
            }
            py = py + 1;
        }
    }

    /// 1px rectangle outline: the top, bottom, left and right edges of the
    /// `width` x `height` rectangle at `(x, y)`, each clipped to the canvas.
    pub fn stroke_rect(&mut self, x: i32, y: i32, width: i32, height: i32, color: Rgb)
        requires
            old(self).wf(),
            i32::MIN <= x + width - 1,
            x + width <= i32::MAX,
            i32::MIN <= y + height - 1,
            y + height <= i32::MAX,
            x < i32::MAX,
            y < i32::MAX,
        ensures
            final(self).wf(),
            same_layout(*old(self), *final(self)),
            final(self).spec_width() == old(self).spec_width(),
            final(self).spec_height() == old(self).spec_height(),
            forall|px: int, py: int, c: int|
                0 <= px < old(self).spec_width() && 0 <= py < old(self).spec_height() && 0 <= c < 4
                    ==> #[trigger] final(self).byte_at(px, py, c) == if on_outline(
                    px,
                    py,
                    x as int,
                    y as int,
                    width as int,
                    height as int,
                ) {
                    color.channel(c)
                } else {
                    old(self).byte_at(px, py, c)
                },
    {
        self.fill_rect(x, y, width, 1, color);
        self.fill_rect(x, y + height - 1, width, 1, color);
        self.fill_rect(x, y, 1, height, color);
        self.fill_rect(x + width - 1, y, 1, height, color);
    }
}

// ---------------------------------------------------------------------------
// Bresenham lines
// ---------------------------------------------------------------------------

pub open spec fn abs(v: int) -> int {
    if v < 0 { -v } else { v }
}

pub open spec fn sign_step(from: int, to: int) -> int {
    if from < to { 1 } else { -1 }
}

/// One step of the integer error-term walk: `(x, y, error)` to the next
/// `(x, y, error)` for a line with spans `dx = |x1 - x0|`, `dy = -|y1 - y0|`.
pub open spec fn line_step(state: (int, int, int), dx: int, dy: int, sx: int, sy: int) -> (int, int, int) {
    let (x, y, e) = state;
    let doubled = 2 * e;
    let (x2, e2) = if doubled >= dy { (x + sx, e + dy) } else { (x, e) };
    let (y2, e3) = if doubled <= dx { (y + sy, e2 + dx) } else { (y, e2) };
    (x2, y2, e3)
}

/// The walk's state after `k` steps from `(x0, y0)` toward `(x1, y1)`.
pub open spec fn line_state(x0: int, y0: int, x1: int, y1: int, k: nat) -> (int, int, int)
    decreases k,
{
    if k == 0 {
        (x0, y0, abs(x1 - x0) - abs(y1 - y0))
    } else {
        line_step(
            line_state(x0, y0, x1, y1, (k - 1) as nat),
            abs(x1 - x0),
            -abs(y1 - y0),
            sign_step(x0, x1),
            sign_step(y0, y1),
        )
    }
}

pub open spec fn line_reaches_end(x0: int, y0: int, x1: int, y1: int, k: nat) -> bool {
    line_state(x0, y0, x1, y1, k).0 == x1 && line_state(x0, y0, x1, y1, k).1 == y1
}

/// Number of steps the walk takes to arrive at `(x1, y1)`.
pub open spec fn line_length(x0: int, y0: int, x1: int, y1: int) -> nat {
    choose|n: nat|
        line_reaches_end(x0, y0, x1, y1, n) && forall|j: nat|
            j < n ==> !#[trigger] line_reaches_end(x0, y0, x1, y1, j)
}

/// Whether `(px, py)` is one of the pixels of the Bresenham line from
/// `(x0, y0)` to `(x1, y1)`, endpoints included.
pub open spec fn on_line(x0: int, y0: int, x1: int, y1: int, px: int, py: int) -> bool {
    exists|k: nat|
        k <= line_length(x0, y0, x1, y1) && #[trigger] line_state(x0, y0, x1, y1, k).0 == px
            && line_state(x0, y0, x1, y1, k).1 == py
}

/// The walk's state after `k` steps, written in terms of how many steps
/// `a` it has taken along x and `b` along y.
pub open spec fn line_state_matches(x0: int, y0: int, x1: int, y1: int, k: nat, a: int, b: int) -> bool {
    let dx = abs(x1 - x0);
    let dyy = abs(y1 - y0);
    let s = line_state(x0, y0, x1, y1, k);
    &&& 0 <= a <= dx
    &&& 0 <= b <= dyy
    &&& s.0 == x0 + sign_step(x0, x1) * a
    &&& s.1 == y0 + sign_step(y0, y1) * b
    &&& s.2 == dx * (b + 1) - dyy * (a + 1)
    &&& -2 * dyy <= s.2 <= 2 * dx
}

/// One step of the walk keeps both axis counters within the spans and
/// advances at least one of them, unless the walk already arrived.
proof fn lemma_line_step(x0: int, y0: int, x1: int, y1: int, k: nat, a: int, b: int) -> (next: (int, int))
    requires
        line_state_matches(x0, y0, x1, y1, k, a, b),
        !(a == abs(x1 - x0) && b == abs(y1 - y0)),
    ensures
        line_state_matches(x0, y0, x1, y1, k + 1, next.0, next.1),
        next.0 + next.1 > a + b,
        a <= next.0 <= a + 1,
        b <= next.1 <= b + 1,
{
    let dx = abs(x1 - x0);
    let dyy = abs(y1 - y0);
    let e = line_state(x0, y0, x1, y1, k).2;
    assert(line_state(x0, y0, x1, y1, (k + 1) as nat) == line_step(
        line_state(x0, y0, x1, y1, k),
        dx,
        -dyy,
        sign_step(x0, x1),
        sign_step(y0, y1),
    ));
    if a == dx {
        // b < dyy: the error term forbids another x step.
        assert(!(2 * e >= -dyy)) by (nonlinear_arith)
            requires
                e == dx * (b + 1) - dyy * (a + 1),
                a == dx,
                0 <= b < dyy,
                0 <= dx,
        ;
    }
    if b == dyy {
        assert(!(2 * e <= dx)) by (nonlinear_arith)
            requires
                e == dx * (b + 1) - dyy * (a + 1),
                b == dyy,
                0 <= a < dx,
                0 <= dyy,
        ;
    }
    let xs = 2 * e >= -dyy;
    let ys = 2 * e <= dx;
    let na = if xs { a + 1 } else { a };
    let nb = if ys { b + 1 } else { b };
    let e2 = e + (if xs { -dyy } else { 0 }) + (if ys { dx } else { 0 });
    assert(e2 == dx * (nb + 1) - dyy * (na + 1)) by (nonlinear_arith)
        requires
            e2 == e + (if xs { -dyy } else { 0 }) + (if ys { dx } else { 0 }),
            e == dx * (b + 1) - dyy * (a + 1),
            na == (if xs { a + 1 } else { a }),
            nb == (if ys { b + 1 } else { b }),
    ;
    let sx = sign_step(x0, x1);
    let sy = sign_step(y0, y1);
    let s0 = line_state(x0, y0, x1, y1, k);
    assert(s0.0 + (if xs { sx } else { 0 }) == x0 + sx * na) by (nonlinear_arith)
        requires
            s0.0 == x0 + sx * a,
            na == (if xs { a + 1 } else { a }),
    ;
    assert(s0.1 + (if ys { sy } else { 0 }) == y0 + sy * nb) by (nonlinear_arith)
        requires
            s0.1 == y0 + sy * b,
            nb == (if ys { b + 1 } else { b }),
    ;
    let s1 = line_state(x0, y0, x1, y1, (k + 1) as nat);
    assert(s1.2 == e2);
    assert(-2 * dyy <= e2 <= 2 * dx);
    assert(s1.0 == x0 + sx * na);
    assert(s1.1 == y0 + sy * nb);
    (na, nb)
}

/// The walk from `(x0, y0)` reaches `(x1, y1)` after at most
/// `|x1 - x0| + |y1 - y0|` steps.
pub proof fn lemma_line_terminates(x0: int, y0: int, x1: int, y1: int)
    ensures
        line_reaches_end(x0, y0, x1, y1, line_length(x0, y0, x1, y1)),
        forall|j: nat|
            j < line_length(x0, y0, x1, y1) ==> !#[trigger] line_reaches_end(x0, y0, x1, y1, j),
        line_length(x0, y0, x1, y1) <= abs(x1 - x0) + abs(y1 - y0),
{
    let dx = abs(x1 - x0);
    let dyy = abs(y1 - y0);
    assert(line_state_matches(x0, y0, x1, y1, 0, 0, 0)) by (nonlinear_arith)
        requires
            dx == abs(x1 - x0),
            dyy == abs(y1 - y0),
            line_state(x0, y0, x1, y1, 0) == (x0, y0, dx - dyy),
            0 <= dx,
            0 <= dyy,
    ;
    let n = lemma_line_walk(x0, y0, x1, y1, 0, 0, 0);
    lemma_line_length_unique(x0, y0, x1, y1, n);
}

/// Continues the walk from step `k` (with axis counters `a`, `b`) until it
/// arrives; returns the arrival step.
proof fn lemma_line_walk(x0: int, y0: int, x1: int, y1: int, k: nat, a: int, b: int) -> (n: nat)
    requires
        line_state_matches(x0, y0, x1, y1, k, a, b),
        k <= a + b,
        forall|j: nat| j < k ==> !#[trigger] line_reaches_end(x0, y0, x1, y1, j),
    ensures
        line_reaches_end(x0, y0, x1, y1, n),
        forall|j: nat| j < n ==> !#[trigger] line_reaches_end(x0, y0, x1, y1, j),
        n <= abs(x1 - x0) + abs(y1 - y0),
    decreases (abs(x1 - x0) - a) + (abs(y1 - y0) - b),
{
    if a == abs(x1 - x0) && b == abs(y1 - y0) {
        lemma_line_at_end(x0, y0, x1, y1, k, a, b);
        k
    } else {
        lemma_line_not_end_unless_done(x0, y0, x1, y1, k, a, b);
        let next = lemma_line_step(x0, y0, x1, y1, k, a, b);
        assert forall|j: nat| j < k + 1 implies !#[trigger] line_reaches_end(x0, y0, x1, y1, j) by {
            if j < k {
            }
        }
        lemma_line_walk(x0, y0, x1, y1, k + 1, next.0, next.1)
    }
}

proof fn lemma_line_not_end_unless_done(x0: int, y0: int, x1: int, y1: int, k: nat, a: int, b: int)
    requires
        line_state_matches(x0, y0, x1, y1, k, a, b),
        !(a == abs(x1 - x0) && b == abs(y1 - y0)),
    ensures
        !line_reaches_end(x0, y0, x1, y1, k),
{
    let sx = sign_step(x0, x1);
    let sy = sign_step(y0, y1);
    if a != abs(x1 - x0) {
        assert(x0 + sx * a != x1) by (nonlinear_arith)
            requires
                sx == (if x0 < x1 { 1int } else { -1 }),
                0 <= a <= abs(x1 - x0),
                a != abs(x1 - x0),
                abs(x1 - x0) == (if x1 - x0 < 0 { -(x1 - x0) } else { x1 - x0 }),
        ;
    } else {
        assert(y0 + sy * b != y1) by (nonlinear_arith)
            requires
                sy == (if y0 < y1 { 1int } else { -1 }),
                0 <= b <= abs(y1 - y0),
                b != abs(y1 - y0),
                abs(y1 - y0) == (if y1 - y0 < 0 { -(y1 - y0) } else { y1 - y0 }),
        ;
    }
}

proof fn lemma_line_at_end(x0: int, y0: int, x1: int, y1: int, k: nat, a: int, b: int)
    requires
        line_state_matches(x0, y0, x1, y1, k, a, b),
        a == abs(x1 - x0),
        b == abs(y1 - y0),
    ensures
        line_reaches_end(x0, y0, x1, y1, k),
{
    let sx = sign_step(x0, x1);
    let sy = sign_step(y0, y1);
    assert(x0 + sx * a == x1) by (nonlinear_arith)
        requires
            sx == (if x0 < x1 { 1int } else { -1 }),
            a == (if x1 - x0 < 0 { -(x1 - x0) } else { x1 - x0 }),
    ;
    assert(y0 + sy * b == y1) by (nonlinear_arith)
        requires
            sy == (if y0 < y1 { 1int } else { -1 }),
            b == (if y1 - y0 < 0 { -(y1 - y0) } else { y1 - y0 }),
    ;
}

proof fn lemma_line_length_unique(x0: int, y0: int, x1: int, y1: int, k: nat)
    requires
        line_reaches_end(x0, y0, x1, y1, k),
        forall|j: nat| j < k ==> !#[trigger] line_reaches_end(x0, y0, x1, y1, j),
    ensures
        line_length(x0, y0, x1, y1) == k,
{
    let n = line_length(x0, y0, x1, y1);
    assert(line_reaches_end(x0, y0, x1, y1, n) && forall|j: nat|
        j < n ==> !#[trigger] line_reaches_end(x0, y0, x1, y1, j));
    if n < k {
        assert(!line_reaches_end(x0, y0, x1, y1, n));
    }
    if k < n {
        assert(!line_reaches_end(x0, y0, x1, y1, k));
    }
}

/// Every state of the walk up to its arrival is described by axis counters.
proof fn lemma_line_counters(x0: int, y0: int, x1: int, y1: int, k: nat) -> (ab: (int, int))
    requires
        k <= line_length(x0, y0, x1, y1),
    ensures
        line_state_matches(x0, y0, x1, y1, k, ab.0, ab.1),
    decreases k,
{
    lemma_line_terminates(x0, y0, x1, y1);
    if k == 0 {
        let dx = abs(x1 - x0);
        let dyy = abs(y1 - y0);
        assert(line_state_matches(x0, y0, x1, y1, 0, 0, 0)) by (nonlinear_arith)
            requires
                dx == abs(x1 - x0),
                dyy == abs(y1 - y0),
                line_state(x0, y0, x1, y1, 0) == (x0, y0, dx - dyy),
                0 <= dx,
                0 <= dyy,
        ;
        (0, 0)
    } else {
        let prev = lemma_line_counters(x0, y0, x1, y1, (k - 1) as nat);
        assert(!line_reaches_end(x0, y0, x1, y1, (k - 1) as nat));
        if prev.0 == abs(x1 - x0) && prev.1 == abs(y1 - y0) {
            lemma_line_at_end(x0, y0, x1, y1, (k - 1) as nat, prev.0, prev.1);
        }
        lemma_line_step(x0, y0, x1, y1, (k - 1) as nat, prev.0, prev.1)
    }
}

pub open spec fn between(v: int, a: int, b: int) -> bool {
    (a <= v && v <= b) || (b <= v && v <= a)
}

/// A Bresenham line contains both of its endpoints, and every one of its
/// pixels lies inside the rectangle the two endpoints span.
pub proof fn lemma_line_shape(x0: int, y0: int, x1: int, y1: int)
    ensures
        on_line(x0, y0, x1, y1, x0, y0),
        on_line(x0, y0, x1, y1, x1, y1),
        forall|px: int, py: int|
            #[trigger] on_line(x0, y0, x1, y1, px, py) ==> between(px, x0, x1) && between(py, y0, y1),
{
    lemma_line_terminates(x0, y0, x1, y1);
    let n = line_length(x0, y0, x1, y1);
    assert(line_state(x0, y0, x1, y1, 0).0 == x0);
    assert(0 <= n);
    assert(line_reaches_end(x0, y0, x1, y1, n));
    assert forall|px: int, py: int| #[trigger] on_line(x0, y0, x1, y1, px, py) implies between(
        px,
        x0,
        x1,
    ) && between(py, y0, y1) by {
        let k = choose|k: nat|
            k <= n && #[trigger] line_state(x0, y0, x1, y1, k).0 == px && line_state(
                x0,
                y0,
                x1,
                y1,
                k,
            ).1 == py;
        let ab = lemma_line_counters(x0, y0, x1, y1, k);
        let sx = sign_step(x0, x1);
        let sy = sign_step(y0, y1);
        assert(between(px, x0, x1)) by (nonlinear_arith)
            requires
                px == x0 + sx * ab.0,
                sx == (if x0 < x1 { 1int } else { -1 }),
                0 <= ab.0 <= abs(x1 - x0),
                abs(x1 - x0) == (if x1 - x0 < 0 { -(x1 - x0) } else { x1 - x0 }),
        ;
        assert(between(py, y0, y1)) by (nonlinear_arith)
            requires
                py == y0 + sy * ab.1,
                sy == (if y0 < y1 { 1int } else { -1 }),
                0 <= ab.1 <= abs(y1 - y0),
                abs(y1 - y0) == (if y1 - y0 < 0 { -(y1 - y0) } else { y1 - y0 }),
        ;
    }
}

/// Whether `(px, py)` is among the first `k` pixels of the walk.
pub open spec fn line_painted_before(x0: int, y0: int, x1: int, y1: int, k: nat, px: int, py: int) -> bool {
    exists|j: nat|
        j < k && #[trigger] line_state(x0, y0, x1, y1, j).0 == px && line_state(x0, y0, x1, y1, j).1
            == py
}

proof fn lemma_line_painted_extend(x0: int, y0: int, x1: int, y1: int, k: nat, px: int, py: int)
    ensures
        line_painted_before(x0, y0, x1, y1, k + 1, px, py) <==> (line_painted_before(
            x0,
            y0,
            x1,
            y1,
            k,
            px,
            py,
        ) || (line_state(x0, y0, x1, y1, k).0 == px && line_state(x0, y0, x1, y1, k).1 == py)),
{
    if line_painted_before(x0, y0, x1, y1, k + 1, px, py) {
        let j = choose|j: nat|
            j < k + 1 && #[trigger] line_state(x0, y0, x1, y1, j).0 == px && line_state(
                x0,
                y0,
                x1,
                y1,
                j,
            ).1 == py;
        if j < k {
            assert(line_painted_before(x0, y0, x1, y1, k, px, py));
        }
    }
    if line_painted_before(x0, y0, x1, y1, k, px, py) {
        let j = choose|j: nat|
            j < k && #[trigger] line_state(x0, y0, x1, y1, j).0 == px && line_state(x0, y0, x1, y1, j).1
                == py;
        assert(j < k + 1);
    }
    if line_state(x0, y0, x1, y1, k).0 == px && line_state(x0, y0, x1, y1, k).1 == py {
        assert(k < k + 1);
    }
}

impl PixelCanvas {
    /// 1px line from `(x0, y0)` to `(x1, y1)` inclusive, by Bresenham's
    /// integer error-term walk; pixels off the canvas are skipped.
    pub fn stroke_line(&mut self, x0: i32, y0: i32, x1: i32, y1: i32, color: Rgb)
        requires
            old(self).wf(),
        ensures
            final(self).wf(),
            same_layout(*old(self), *final(self)),
            final(self).spec_width() == old(self).spec_width(),
            final(self).spec_height() == old(self).spec_height(),
            forall|px: int, py: int, c: int|
                0 <= px < old(self).spec_width() && 0 <= py < old(self).spec_height() && 0 <= c < 4
                    ==> #[trigger] final(self).byte_at(px, py, c) == if on_line(
                    x0 as int,
                    y0 as int,
                    x1 as int,
                    y1 as int,
                    px,
                    py,
                ) {
                    color.channel(c)
                } else {
                    old(self).byte_at(px, py, c)
                },
    {
        let ghost start = *self;
        let ghost (gx0, gy0, gx1, gy1) = (x0 as int, y0 as int, x1 as int, y1 as int);
        let span_x: i64 = x1 as i64 - x0 as i64;
        let span_y: i64 = y1 as i64 - y0 as i64;
        let dx: i64 = if span_x < 0 { -span_x } else { span_x };
        let dy: i64 = if span_y < 0 { span_y } else { -span_y };
        let step_x: i64 = if x0 < x1 { 1 } else { -1 };
        let step_y: i64 = if y0 < y1 { 1 } else { -1 };
        let mut error: i64 = dx + dy;
        let mut x: i64 = x0 as i64;
        let mut y: i64 = y0 as i64;
        let ghost mut k: nat = 0;
        let ghost mut a: int = 0;
        let ghost mut b: int = 0;
        proof {
            lemma_line_terminates(gx0, gy0, gx1, gy1);
            assert(line_state_matches(gx0, gy0, gx1, gy1, 0, 0, 0)) by (nonlinear_arith)
                requires
                    dx == abs(gx1 - gx0),
                    -dy == abs(gy1 - gy0),
                    line_state(gx0, gy0, gx1, gy1, 0) == (gx0, gy0, dx + dy),
                    0 <= dx,
                    dy <= 0,
            ;
        }
        loop
            invariant_except_break
                forall|px: int, py: int, c: int|
                    0 <= px < start.spec_width() && 0 <= py < start.spec_height() && 0 <= c < 4
                        ==> #[trigger] self.byte_at(px, py, c) == if line_painted_before(
                        gx0,
                        gy0,
                        gx1,
                        gy1,
                        k,
                        px,
                        py,
                    ) {
                        color.channel(c)
                    } else {
                        start.byte_at(px, py, c)
                    },
            invariant
                self.wf(),
                self.spec_width() == start.spec_width(),
                self.spec_height() == start.spec_height(),
                dx == abs(gx1 - gx0),
                dy == -abs(gy1 - gy0),
                step_x == sign_step(gx0, gx1),
                step_y == sign_step(gy0, gy1),
                gx0 == x0,
                gy0 == y0,
                gx1 == x1,
                gy1 == y1,
                line_state_matches(gx0, gy0, gx1, gy1, k, a, b),
                line_state(gx0, gy0, gx1, gy1, k) == (x as int, y as int, error as int),
                k <= line_length(gx0, gy0, gx1, gy1),
                line_reaches_end(gx0, gy0, gx1, gy1, line_length(gx0, gy0, gx1, gy1)),
                forall|j: nat|
                    j < line_length(gx0, gy0, gx1, gy1) ==> !#[trigger] line_reaches_end(
                        gx0,
                        gy0,
                        gx1,
                        gy1,
                        j,
                    ),
            ensures
                forall|px: int, py: int, c: int|
                    0 <= px < start.spec_width() && 0 <= py < start.spec_height() && 0 <= c < 4
                        ==> #[trigger] self.byte_at(px, py, c) == if on_line(
                        gx0,
                        gy0,
                        gx1,
                        gy1,
                        px,
                        py,
                    ) {
                        color.channel(c)
                    } else {
                        start.byte_at(px, py, c)
                    },
            decreases (dx - a) + (-dy - b),
        {
            proof {
                let sx = sign_step(gx0, gx1);
                let sy = sign_step(gy0, gy1);
                assert(i32::MIN <= x <= i32::MAX) by (nonlinear_arith)
                    requires
                        x == gx0 + sx * a,
                        sx == (if gx0 < gx1 { 1int } else { -1 }),
                        0 <= a <= abs(gx1 - gx0),
                        abs(gx1 - gx0) == (if gx1 - gx0 < 0 { -(gx1 - gx0) } else { gx1 - gx0 }),
                        i32::MIN <= gx0 <= i32::MAX,
                        i32::MIN <= gx1 <= i32::MAX,
                ;
                assert(i32::MIN <= y <= i32::MAX) by (nonlinear_arith)
                    requires
                        y == gy0 + sy * b,
                        sy == (if gy0 < gy1 { 1int } else { -1 }),
                        0 <= b <= abs(gy1 - gy0),
                        abs(gy1 - gy0) == (if gy1 - gy0 < 0 { -(gy1 - gy0) } else { gy1 - gy0 }),
                        i32::MIN <= gy0 <= i32::MAX,
                        i32::MIN <= gy1 <= i32::MAX,
                ;
            }
            let ghost before = *self;
            self.put_opaque(x as i32, y as i32, color);
            proof {
                assert forall|px: int, py: int, c: int|
                    0 <= px < start.spec_width() && 0 <= py < start.spec_height() && 0 <= c < 4
                        implies #[trigger] self.byte_at(px, py, c) == if line_painted_before(
                        gx0,
                        gy0,
                        gx1,
                        gy1,
                        k + 1,
                        px,
                        py,
                    ) {
                        color.channel(c)
                    } else {
                        start.byte_at(px, py, c)
                    } by {
                    lemma_line_painted_extend(gx0, gy0, gx1, gy1, k, px, py);
                    assert(before.byte_at(px, py, c) == if line_painted_before(
                        gx0,
                        gy0,
                        gx1,
                        gy1,
                        k,
                        px,
                        py,
                    ) {
                        color.channel(c)
                    } else {
                        start.byte_at(px, py, c)
                    });
                }
            }
            if x == x1 as i64 && y == y1 as i64 {
                proof {
                    let n = line_length(gx0, gy0, gx1, gy1);
                    assert(line_reaches_end(gx0, gy0, gx1, gy1, k));
                    if k < n {
                        assert(!line_reaches_end(gx0, gy0, gx1, gy1, k));
                    }
                    assert forall|px: int, py: int|
                        #![trigger on_line(gx0, gy0, gx1, gy1, px, py)]
                        line_painted_before(gx0, gy0, gx1, gy1, k + 1, px, py) <==> on_line(
                            gx0,
                            gy0,
                            gx1,
                            gy1,
                            px,
                            py,
                        ) by {
                        if on_line(gx0, gy0, gx1, gy1, px, py) {
                            let j = choose|j: nat|
                                j <= n && #[trigger] line_state(gx0, gy0, gx1, gy1, j).0 == px
                                    && line_state(gx0, gy0, gx1, gy1, j).1 == py;
                            assert(j < k + 1);
                        }
                        if line_painted_before(gx0, gy0, gx1, gy1, k + 1, px, py) {
                            let j = choose|j: nat|
                                j < k + 1 && #[trigger] line_state(gx0, gy0, gx1, gy1, j).0 == px
                                    && line_state(gx0, gy0, gx1, gy1, j).1 == py;
                            assert(j <= n);
                        }
                    }
                }
                break;
            }
            proof {
                lemma_line_not_end_unless_done(gx0, gy0, gx1, gy1, k, a, b);
                if a == abs(gx1 - gx0) && b == abs(gy1 - gy0) {
                    lemma_line_at_end(gx0, gy0, gx1, gy1, k, a, b);
                }
            }
            let ghost prev_k = k;
            let doubled = 2 * error;
            if doubled >= dy {
                error = error + dy;
                x = x + step_x;
            }
            if doubled <= dx {
                error = error + dx;
                y = y + step_y;
            }
            proof {
                let next = lemma_line_step(gx0, gy0, gx1, gy1, k, a, b);
                a = next.0;
                b = next.1;
                k = k + 1;
                let n = line_length(gx0, gy0, gx1, gy1);
                if prev_k == n {
                    assert(line_reaches_end(gx0, gy0, gx1, gy1, prev_k));
                }
            }
        }
    }
}

/// The four 1px edges a `stroke_rect` draws.
pub open spec fn on_outline(px: int, py: int, x: int, y: int, width: int, height: int) -> bool {
    ||| in_rect(px, py, x, y, width, 1)
    ||| in_rect(px, py, x, y + height - 1, width, 1)
    ||| in_rect(px, py, x, y, 1, height)
    ||| in_rect(px, py, x + width - 1, y, 1, height)
}

/// Two well-formed canvases of the same size that agree on every byte of
/// every pixel hold the same buffer: per-pixel statements determine a
/// canvas completely.
pub proof fn lemma_canvas_determined_by_pixels(a: &PixelCanvas, b: &PixelCanvas)
    requires
        a.wf(),
        b.wf(),
        a.spec_width() == b.spec_width(),
        a.spec_height() == b.spec_height(),
        forall|x: int, y: int, c: int|
            0 <= x < a.spec_width() && 0 <= y < a.spec_height() && 0 <= c < 4 ==> #[trigger] a.byte_at(
                x,
                y,
                c,
            ) == b.byte_at(x, y, c),
    ensures
        a.spec_bytes() == b.spec_bytes(),
{
    let w = a.spec_width() as int;
    let h = a.spec_height() as int;
    assert forall|i: int| 0 <= i < a.spec_bytes().len() implies a.spec_bytes()[i]
        == b.spec_bytes()[i] by {
        let p = i / 4;
        let c = i % 4;
        assert(0 < w) by (nonlinear_arith)
            requires
                0 <= i < w * h * 4,
                0 <= h,
        ;
        let x = p % w;
        let y = p / w;
        vstd::arithmetic::div_mod::lemma_fundamental_div_mod(i, 4);
        vstd::arithmetic::div_mod::lemma_fundamental_div_mod(p, w);
        assert(0 <= y < h) by (nonlinear_arith)
            requires
                p == w * y + x,
                0 <= x < w,
                0 <= p,
                p * 4 + c == i,
                0 <= c < 4,
                i < w * h * 4,
                0 < w,
        ;
        assert(byte_offset(w, x, y, c) == i) by (nonlinear_arith)
            requires
                p == w * y + x,
                i == 4 * p + c,
        ;
        assert(a.byte_at(x, y, c) == b.byte_at(x, y, c));
    }
    assert(a.spec_bytes() =~= b.spec_bytes());
}

/// A drawing call's effect on the canvas's shape: it stays well formed,
/// with the same width and height. Every drawing operation of this module
/// ensures it.
pub open spec fn same_layout(before: PixelCanvas, after: PixelCanvas) -> bool {
    &&& after.wf()
    &&& after.spec_width() == before.spec_width()
    &&& after.spec_height() == before.spec_height()
}

/// Drawing never changes a canvas's shape or its byte layout: along any
/// sequence of canvases, each reached from the one before by a drawing
/// call and starting from a well-formed `width` x `height` canvas (as
/// `with_dimensions` makes), every canvas keeps that width and height, its
/// buffer holds exactly `width * height * 4` bytes, and byte `c` of pixel
/// `(x, y)` sits at offset `(y * width + x) * 4 + c`, row-major, in red,
/// green, blue, alpha order.
pub proof fn lemma_drawing_keeps_layout(states: Seq<PixelCanvas>, width: nat, height: nat)
    requires
        states.len() > 0,
        states[0].wf(),
        states[0].spec_width() == width,
        states[0].spec_height() == height,
        forall|i: int| 0 <= i < states.len() - 1 ==> same_layout(#[trigger] states[i], states[i + 1]),
    ensures
        forall|i: int|
            0 <= i < states.len() ==> {
                &&& (#[trigger] states[i]).wf()
                &&& states[i].spec_width() == width
                &&& states[i].spec_height() == height
                &&& states[i].spec_bytes().len() == width * height * 4
            },
        forall|x: int, y: int, c: int|
            0 <= x < width && 0 <= y < height && 0 <= c < 4 ==> 0 <= #[trigger] byte_offset(width as int, x, y, c)
                < (width as int) * (height as int) * 4,
        forall|i: int, x: int, y: int, c: int|
            0 <= i < states.len() ==> #[trigger] states[i].byte_at(x, y, c) == states[i].spec_bytes()[(y * width
                + x) * 4 + c],
    decreases states.len(),
{
    if states.len() > 1 {
        let prefix = states.drop_last();
        assert forall|i: int| 0 <= i < prefix.len() - 1 implies same_layout(#[trigger] prefix[i], prefix[i + 1]) by {
            assert(same_layout(states[i], states[i + 1]));
        }
        lemma_drawing_keeps_layout(prefix, width, height);
        let last = states.len() - 1;
        assert(same_layout(states[last - 1], states[last]));
        assert(prefix[last - 1] == states[last - 1]);
        assert forall|i: int| 0 <= i < states.len() implies {
            &&& (#[trigger] states[i]).wf()
            &&& states[i].spec_width() == width
            &&& states[i].spec_height() == height
            &&& states[i].spec_bytes().len() == width * height * 4
        } by {
            if i < last {
                assert(prefix[i] == states[i]);
            }
        }
    }
    assert forall|x: int, y: int, c: int| 0 <= x < width && 0 <= y < height && 0 <= c < 4 implies 0
        <= #[trigger] byte_offset(width as int, x, y, c) < (width as int) * (height as int) * 4 by {
        lemma_offset_in_bounds(width as int, height as int, x, y, c);
    }
    assert forall|i: int, x: int, y: int, c: int| 0 <= i < states.len() implies #[trigger] states[i].byte_at(
        x,
        y,
        c,
    ) == states[i].spec_bytes()[(y * width + x) * 4 + c] by {
        if states.len() == 1 {
            assert(i == 0);
        }
        assert(states[i].wf());
    }
}

/// Nearest-neighbour sampling for a scaled blit: the source column (or row)
/// that target column `p` of a `target_len`-wide rectangle reads from a
/// `source_len`-wide image, `p * source_len / target_len` rounded down.
/// It always lies inside the source, so no clamping is ever needed.
pub fn scaled_source_index(p: i32, source_len: usize, target_len: i32) -> (index: usize)
    requires
        0 <= p < target_len,
        0 < source_len <= i32::MAX,
        p * source_len <= i32::MAX,
    ensures
        index == (p * source_len) / (target_len as int),
        index < source_len,
{
    let product: i32 = p * (source_len as i32);
    let quotient: i32 = product / target_len;
    proof {
        let n = p * source_len;
        let t = target_len as int;
        let q = n / t;
        vstd::arithmetic::div_mod::lemma_fundamental_div_mod(n, t);
        assert(q < source_len) by (nonlinear_arith)
            requires
                n == t * q + n % t,
                0 <= n % t,
                n == p * source_len,
                0 <= p < t,
                0 < source_len,
        ;
        assert(0 <= q) by (nonlinear_arith)
            requires
                n == t * q + n % t,
                n % t < t,
                0 <= n,
                0 < t,
        ;
    }
    quotient as usize
}

} // verus!

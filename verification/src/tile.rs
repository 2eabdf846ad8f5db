use vstd::prelude::*;
use crate::pixel::{clear_px, Px};

verus! {

/// Largest accepted edge length of any pixel buffer, small enough that
/// pixel counts and indices stay well inside `usize` on every platform.
pub const MAX_DIM: u32 = 0x1000;

/// A `width` x `height` RGBA pixel buffer in row-major order: the pixel at
/// column `x` of row `y` sits at index `y * width + x`.
pub struct Tile {
    pub width: u32,
    pub height: u32,
    pub pixels: Vec<Px>,
}

/// Index of the pixel at column `x` of row `y` in a row-major buffer of
/// width `w`.
pub open spec fn grid_idx(w: int, x: int, y: int) -> int {
    y * w + x
}

/// The pixel at column `x` of row `y` of the row-major sequence `s`.
pub open spec fn pix_at(s: Seq<Px>, w: int, x: int, y: int) -> Px {
    s[grid_idx(w, x, y)]
}

/// `n` fully transparent pixels: the content of a fresh blank canvas.
pub open spec fn blank_seq(n: int) -> Seq<Px> {
    Seq::new(n as nat, |i: int| clear_px())
}

/// The `w` x `h` sub-rectangle of the row-major sequence `src` (of width
/// `sw`) whose top-left corner is at column `x0` of row `y0`.
pub open spec fn rect_seq(src: Seq<Px>, sw: int, x0: int, y0: int, w: int, h: int) -> Seq<Px> {
    Seq::new((w * h) as nat, |i: int| src[grid_idx(sw, x0 + i % w, y0 + i / w)])
}

/// A `w` x `h` row-major buffer rotated a quarter turn clockwise: the
/// result is `h` wide and `w` tall.
pub open spec fn rot90_seq(src: Seq<Px>, w: int, h: int) -> Seq<Px> {
    Seq::new((w * h) as nat, |i: int| src[grid_idx(w, i / h, h - 1 - i % h)])
}

/// A `w` x `h` row-major buffer rotated a half turn.
pub open spec fn rot180_seq(src: Seq<Px>, w: int, h: int) -> Seq<Px> {
    Seq::new((w * h) as nat, |i: int| src[grid_idx(w, w - 1 - i % w, h - 1 - i / w)])
}

/// A `w` x `h` row-major buffer rotated a quarter turn counter-clockwise:
/// the result is `h` wide and `w` tall.
pub open spec fn rot270_seq(src: Seq<Px>, w: int, h: int) -> Seq<Px> {
    Seq::new((w * h) as nat, |i: int| src[grid_idx(w, w - 1 - i / h, i % h)])
}

/// Two tiles drawn alike: same dimensions and the same pixel at every
/// index.
pub open spec fn same_image(a: Tile, b: Tile) -> bool {
    &&& a.width == b.width
    &&& a.height == b.height
    &&& a.pixels@ == b.pixels@
}

/// Decomposing a row-major index: the pixel pushed at step `y * w + x` of a
/// row-by-row walk is the one at column `x` of row `y`.
pub proof fn lemma_grid_decomp(w: int, x: int, y: int)
    requires
        0 <= x < w,
        0 <= y,
    ensures
        grid_idx(w, x, y) / w == y,
        grid_idx(w, x, y) % w == x,
        grid_idx(w, x, y) >= 0,
{
    assert((y * w + x) / w == y && (y * w + x) % w == x && y * w + x >= 0) by (nonlinear_arith)
        requires
            0 <= x < w,
            0 <= y,
    ;
}

/// A row-major index derived from in-range coordinates is in range.
pub proof fn lemma_grid_bound(w: int, h: int, x: int, y: int)
    requires
        0 <= x < w,
        0 <= y < h,
    ensures
        0 <= grid_idx(w, x, y) < w * h,
{
    assert(0 <= y * w + x < w * h) by (nonlinear_arith)
        requires
            0 <= x < w,
            0 <= y < h,
    ;
}

/// Two row-major sequences of the same `w` x `h` shape that agree at every
/// coordinate are equal.
pub proof fn lemma_grid_pointwise(a: Seq<Px>, b: Seq<Px>, w: int, h: int)
    requires
        w >= 0,
        h >= 0,
        a.len() == w * h,
        b.len() == w * h,
        forall|x: int, y: int|
            0 <= x < w && 0 <= y < h ==> pix_at(a, w, x, y) == pix_at(b, w, x, y),
    ensures
        a =~= b,
{
    assert forall|i: int| 0 <= i < a.len() implies a[i] == b[i] by {
        let x = i % w;
        let y = i / w;
        assert(w > 0 && h > 0) by (nonlinear_arith)
            requires
                0 <= i < w * h,
                w >= 0,
                h >= 0,
        ;
        vstd::arithmetic::div_mod::lemma_fundamental_div_mod(i, w);
        vstd::arithmetic::div_mod::lemma_mod_bound(i, w);
        assert(0 <= x < w && y * w + x == i);
        assert(0 <= y < h) by (nonlinear_arith)
            requires
                i == y * w + x,
                0 <= x < w,
                0 <= i < w * h,
        ;
        assert(grid_idx(w, x, y) == i);
        assert(pix_at(a, w, x, y) == pix_at(b, w, x, y));
    }
}

impl Tile {
    /// A buffer is well formed when its pixel vector holds exactly one
    /// entry per coordinate and its edges are of bounded size.
    pub open spec fn wf(self) -> bool {
        &&& self.pixels@.len() == self.width * self.height
        &&& self.width <= MAX_DIM
        &&& self.height <= MAX_DIM
    }

    /// A fresh, fully transparent canvas of the given dimensions.
    pub fn blank(width: u32, height: u32) -> (t: Tile)
        requires
            width <= MAX_DIM,
            height <= MAX_DIM,
        ensures
            t.wf(),
            t.width == width,
            t.height == height,
            t.pixels@ == blank_seq(width * height),
    {
        proof {
            assert((width as int) * (height as int) <= 0x1000000) by (nonlinear_arith)
                requires
                    width <= 0x1000,
                    height <= 0x1000,
            ;
        }
        let count: usize = (width as usize) * (height as usize);
        let mut pixels: Vec<Px> = Vec::new();
        let mut i: usize = 0;
        while i < count
            invariant
                i <= count,
                count == width * height,
                pixels@.len() == i,
                forall|k: int| 0 <= k < i ==> pixels@[k] == clear_px(),
            decreases count - i,
        {
            pixels.push(Px { r: 0, g: 0, b: 0, a: 0 });
            i = i + 1;
        }
        let t = Tile { width, height, pixels };
        proof {
            assert(t.pixels@ =~= blank_seq(width * height));
        }
        t
    }

    /// An exact copy of this tile.
    pub fn duplicate(&self) -> (t: Tile)
        ensures
            same_image(t, *self),
    {
        let mut pixels: Vec<Px> = Vec::new();
        let mut i: usize = 0;
        let n: usize = self.pixels.len();
        while i < n
            invariant
                i <= n,
                n == self.pixels@.len(),
                pixels@.len() == i,
                forall|k: int| 0 <= k < i ==> pixels@[k] == self.pixels@[k],
            decreases n - i,
        {
            pixels.push(self.pixels[i]);
            i = i + 1;
        }
        let t = Tile { width: self.width, height: self.height, pixels };
        proof {
            assert(t.pixels@ =~= self.pixels@);
        }
        t
    }
}

/// The tile turned a quarter turn clockwise, as the autotile source
/// fragments are when a corner decoration is reused on another corner.
pub fn rotate90(t: &Tile) -> (r: Tile)
    requires
        t.wf(),
    ensures
        r.wf(),
        r.width == t.height,
        r.height == t.width,
        r.pixels@ == rot90_seq(t.pixels@, t.width as int, t.height as int),
{
    let w = t.width;
    let h = t.height;
    let ghost target = rot90_seq(t.pixels@, w as int, h as int);
    let mut pixels: Vec<Px> = Vec::new();
    let mut yd: u32 = 0;
    while yd < w
        invariant
            yd <= w,
            t.wf(),
            w == t.width,
            h == t.height,
            target == rot90_seq(t.pixels@, w as int, h as int),
            pixels@.len() == yd * h,
            forall|k: int| 0 <= k < yd * h ==> pixels@[k] == target[k],
        decreases w - yd,
    {
        let mut xd: u32 = 0;
        while xd < h
            invariant
                xd <= h,
                yd < w,
                t.wf(),
                w == t.width,
                h == t.height,
                target == rot90_seq(t.pixels@, w as int, h as int),
                pixels@.len() == yd * h + xd,
                forall|k: int| 0 <= k < yd * h + xd ==> pixels@[k] == target[k],
            decreases h - xd,
        {
            proof {
                lemma_grid_bound(w as int, h as int, yd as int, (h - 1 - xd) as int);
                assert(((h - 1 - xd) as int) * (w as int) <= 0x1000000) by (nonlinear_arith)
                    requires
                        h - 1 - xd <= 0x1000,
                        w <= 0x1000,
                ;
            }
            let idx: usize = ((h - 1 - xd) as usize) * (w as usize) + (yd as usize);
            let p = t.pixels[idx];
            pixels.push(p);
            proof {
                lemma_grid_decomp(h as int, xd as int, yd as int);
                lemma_grid_bound(h as int, w as int, xd as int, yd as int);
                assert(target[grid_idx(h as int, xd as int, yd as int)] == p);
            }
            xd = xd + 1;
        }
        yd = yd + 1;
        proof {
            assert(yd * h == (yd - 1) * h + h) by (nonlinear_arith);
        }
    }
    let r = Tile { width: h, height: w, pixels };
    proof {
        assert(w * h == h * w) by (nonlinear_arith);
        assert(r.pixels@ =~= target);
    }
    r
}

/// The tile turned a half turn.
pub fn rotate180(t: &Tile) -> (r: Tile)
    requires
        t.wf(),
    ensures
        r.wf(),
        r.width == t.width,
        r.height == t.height,
        r.pixels@ == rot180_seq(t.pixels@, t.width as int, t.height as int),
{
    let w = t.width;
    let h = t.height;
    let ghost target = rot180_seq(t.pixels@, w as int, h as int);
    let mut pixels: Vec<Px> = Vec::new();
    let mut yd: u32 = 0;
    while yd < h
        invariant
            yd <= h,
            t.wf(),
            w == t.width,
            h == t.height,
            target == rot180_seq(t.pixels@, w as int, h as int),
            pixels@.len() == yd * w,
            forall|k: int| 0 <= k < yd * w ==> pixels@[k] == target[k],
        decreases h - yd,
    {
        let mut xd: u32 = 0;
        while xd < w
            invariant
                xd <= w,
                yd < h,
                t.wf(),
                w == t.width,
                h == t.height,
                target == rot180_seq(t.pixels@, w as int, h as int),
                pixels@.len() == yd * w + xd,
                forall|k: int| 0 <= k < yd * w + xd ==> pixels@[k] == target[k],
            decreases w - xd,
        {
            proof {
                lemma_grid_bound(w as int, h as int, (w - 1 - xd) as int, (h - 1 - yd) as int);
                assert(((h - 1 - yd) as int) * (w as int) <= 0x1000000) by (nonlinear_arith)
                    requires
                        h - 1 - yd <= 0x1000,
                        w <= 0x1000,
                ;
            }
            let idx: usize = ((h - 1 - yd) as usize) * (w as usize) + ((w - 1 - xd) as usize);
            let p = t.pixels[idx];
            pixels.push(p);
            proof {
                lemma_grid_decomp(w as int, xd as int, yd as int);
                lemma_grid_bound(w as int, h as int, xd as int, yd as int);
                assert(target[grid_idx(w as int, xd as int, yd as int)] == p);
            }
            xd = xd + 1;
        }
        yd = yd + 1;
        proof {
            assert(yd * w == (yd - 1) * w + w) by (nonlinear_arith);
        }
    }
    let r = Tile { width: w, height: h, pixels };
    proof {
        assert(h * w == w * h) by (nonlinear_arith);
        assert(r.pixels@ =~= target);
    }
    r
}

/// The tile turned a quarter turn counter-clockwise.
pub fn rotate270(t: &Tile) -> (r: Tile)
    requires
        t.wf(),
    ensures
        r.wf(),
        r.width == t.height,
        r.height == t.width,
        r.pixels@ == rot270_seq(t.pixels@, t.width as int, t.height as int),
{
    let w = t.width;
    let h = t.height;
    let ghost target = rot270_seq(t.pixels@, w as int, h as int);
    let mut pixels: Vec<Px> = Vec::new();
    let mut yd: u32 = 0;
    while yd < w
        invariant
            yd <= w,
            t.wf(),
            w == t.width,
            h == t.height,
            target == rot270_seq(t.pixels@, w as int, h as int),
            pixels@.len() == yd * h,
            forall|k: int| 0 <= k < yd * h ==> pixels@[k] == target[k],
        decreases w - yd,
    {
        let mut xd: u32 = 0;
        while xd < h
            invariant
                xd <= h,
                yd < w,
                t.wf(),
                w == t.width,
                h == t.height,
                target == rot270_seq(t.pixels@, w as int, h as int),
                pixels@.len() == yd * h + xd,
                forall|k: int| 0 <= k < yd * h + xd ==> pixels@[k] == target[k],
            decreases h - xd,
        {
            proof {
                lemma_grid_bound(w as int, h as int, (w - 1 - yd) as int, xd as int);
                assert((xd as int) * (w as int) <= 0x1000000) by (nonlinear_arith)
                    requires
                        xd <= 0x1000,
                        w <= 0x1000,
                ;
            }
            let idx: usize = (xd as usize) * (w as usize) + ((w - 1 - yd) as usize);
            let p = t.pixels[idx];
            pixels.push(p);
            proof {
                lemma_grid_decomp(h as int, xd as int, yd as int);
                lemma_grid_bound(h as int, w as int, xd as int, yd as int);
                assert(target[grid_idx(h as int, xd as int, yd as int)] == p);
            }
            xd = xd + 1;
        }
        yd = yd + 1;
        proof {
            assert(yd * h == (yd - 1) * h + h) by (nonlinear_arith);
        }
    }
    let r = Tile { width: h, height: w, pixels };
    proof {
        assert(w * h == h * w) by (nonlinear_arith);
        assert(r.pixels@ =~= target);
    }
    r
}

/// Whether two tiles hold the same picture: the same dimensions and the
/// same pixel everywhere.
pub fn eq_tiles(a: &Tile, b: &Tile) -> (r: bool)
    requires
        a.wf(),
        b.wf(),
    ensures
        r == same_image(*a, *b),
{
    if a.width != b.width || a.height != b.height {
        return false;
    }
    let n: usize = a.pixels.len();
    let mut i: usize = 0;
    while i < n
        invariant
            i <= n,
            n == a.pixels@.len(),
            a.pixels@.len() == b.pixels@.len(),
            forall|k: int| 0 <= k < i ==> a.pixels@[k] == b.pixels@[k],
        decreases n - i,
    {
        if a.pixels[i].r != b.pixels[i].r || a.pixels[i].g != b.pixels[i].g
            || a.pixels[i].b != b.pixels[i].b || a.pixels[i].a != b.pixels[i].a {
            assert(a.pixels@[i as int] != b.pixels@[i as int]);
            return false;
        }
        i = i + 1;
    }
    proof {
        assert(a.pixels@ =~= b.pixels@);
    }
    true
}

/// A faithful per-pixel copy of the sub-rectangle of `source_img` whose
/// origin, width and height are given in pixels.
pub fn copy_pixels(source_img: &Tile, start_x: u32, start_y: u32, width: u32, height: u32) -> (r:
    Tile)
    requires
        source_img.wf(),
        start_x + width <= source_img.width,
        start_y + height <= source_img.height,
    ensures
        r.wf(),
        r.width == width,
        r.height == height,
        r.pixels@ == rect_seq(
            source_img.pixels@,
            source_img.width as int,
            start_x as int,
            start_y as int,
            width as int,
            height as int,
        ),
{
    let sw = source_img.width;
    let ghost target = rect_seq(
        source_img.pixels@,
        sw as int,
        start_x as int,
        start_y as int,
        width as int,
        height as int,
    );
    let mut pixels: Vec<Px> = Vec::new();
    let mut y: u32 = 0;
    while y < height
        invariant
            y <= height,
            source_img.wf(),
            sw == source_img.width,
            start_x + width <= sw,
            start_y + height <= source_img.height,
            target == rect_seq(
                source_img.pixels@,
                sw as int,
                start_x as int,
                start_y as int,
                width as int,
                height as int,
            ),
            pixels@.len() == y * width,
            forall|k: int| 0 <= k < y * width ==> pixels@[k] == target[k],
        decreases height - y,
    {
        let mut x: u32 = 0;
        while x < width
            invariant
                x <= width,
                y < height,
                source_img.wf(),
                sw == source_img.width,
                start_x + width <= sw,
                start_y + height <= source_img.height,
                target == rect_seq(
                    source_img.pixels@,
                    sw as int,
                    start_x as int,
                    start_y as int,
                    width as int,
                    height as int,
                ),
                pixels@.len() == y * width + x,
                forall|k: int| 0 <= k < y * width + x ==> pixels@[k] == target[k],
            decreases width - x,
        {
            proof {
                lemma_grid_bound(sw as int, source_img.height as int, (start_x + x) as int, (
                start_y + y) as int);
                assert(((start_y + y) as int) * (sw as int) <= 0x1000000) by (nonlinear_arith)
                    requires
                        start_y + y <= 0x1000,
                        sw <= 0x1000,
                ;
            }
            let idx: usize = ((start_y + y) as usize) * (sw as usize) + ((start_x + x) as usize);
            let p = source_img.pixels[idx];
            pixels.push(p);
            proof {
                lemma_grid_decomp(width as int, x as int, y as int);
                lemma_grid_bound(width as int, height as int, x as int, y as int);
                assert(target[grid_idx(width as int, x as int, y as int)] == p);
            }
            x = x + 1;
        }
        y = y + 1;
        proof {
            assert(y * width == (y - 1) * width + width) by (nonlinear_arith);
        }
    }
    let r = Tile { width, height, pixels };
    proof {
        assert(height * width == width * height) by (nonlinear_arith);
        assert(r.pixels@ =~= target);
    }
    r
}

} // verus!

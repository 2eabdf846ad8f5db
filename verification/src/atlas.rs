use vstd::prelude::*;
use crate::pixel::{clear_px, Px};
use crate::tile::{grid_idx, lemma_grid_bound, lemma_grid_decomp, pix_at, Tile};

verus! {

/// Side length, in cells, of the smallest square grid that can hold `n`
/// tiles: the ceiling of the square root of `n`.
pub fn grid_side(n: usize) -> (r: usize)
    requires
        n <= 0x10000,
    ensures
        n <= r * r,
        r > 0 ==> (r - 1) * (r - 1) < n,
        r <= 0x100,
        n > 0 ==> r > 0,
{
    let mut r: usize = 0;
    while r * r < n
        invariant
            n <= 0x10000,
            r <= 0x100,
            r * r <= 0x10000,
            r > 0 ==> (r - 1) * (r - 1) < n,
        decreases 0x101 - r,
    {
        proof {
            assert(r < 0x100 && (r + 1) * (r + 1) <= 0x10000) by (nonlinear_arith)
                requires
                    r * r < n,
                    n <= 0x10000,
                    r <= 0x100,
            ;
        }
        r = r + 1;
    }
    r
}

/// The grid cell that the atlas pixel at column `x` of row `y` belongs
/// to, on a square grid of `side` cells of edge `t`.
pub open spec fn cell_of(x: int, y: int, t: int, side: int) -> int {
    (y / t) * side + x / t
}

/// `s` is the ceiling of the square root of `n`: the smallest side of a
/// square grid with at least `n` cells.
pub open spec fn is_ceil_sqrt(s: int, n: int) -> bool {
    &&& 0 <= s
    &&& n <= s * s
    &&& s > 0 ==> (s - 1) * (s - 1) < n
    &&& n > 0 ==> s > 0
}

/// The ceiling of the square root is unique: the atlas side, and with it
/// the atlas dimensions, are pinned by the distinct-tile count alone.
pub proof fn lemma_ceil_sqrt_unique(s1: int, s2: int, n: int)
    requires
        is_ceil_sqrt(s1, n),
        is_ceil_sqrt(s2, n),
    ensures
        s1 == s2,
{
    assert(false ==> true);
    if s1 < s2 {
        assert(s1 * s1 <= (s2 - 1) * (s2 - 1)) by (nonlinear_arith)
            requires
                0 <= s1,
                s1 < s2,
        ;
    }
    if s2 < s1 {
        assert(s2 * s2 <= (s1 - 1) * (s1 - 1)) by (nonlinear_arith)
            requires
                0 <= s2,
                s2 < s1,
        ;
    }
}

/// Lays the distinct tiles out on the smallest square grid that holds
/// them all, row-major by slot number, trailing cells left transparent.
/// Returns the atlas image and the grid side in cells.
pub fn pack_tiles(tiles: &Vec<Tile>, tile_size: u32) -> (out: (Tile, usize))
    requires
        1 <= tile_size <= 0x100,
        tiles@.len() <= 256,
        forall|i: int|
            0 <= i < tiles@.len() ==> (#[trigger] tiles@[i]).wf() && tiles@[i].width == tile_size
                && tiles@[i].height == tile_size,
    ensures
        is_ceil_sqrt(out.1 as int, tiles@.len() as int),
        out.0.wf(),
        out.0.width == out.1 * tile_size,
        out.0.height == out.1 * tile_size,
        forall|x: int, y: int|
            0 <= x < out.0.width && 0 <= y < out.0.height ==> pix_at(
                out.0.pixels@,
                out.0.width as int,
                x,
                y,
            ) == (if cell_of(x, y, tile_size as int, out.1 as int) < tiles@.len() {
                pix_at(
                    tiles@[cell_of(x, y, tile_size as int, out.1 as int)].pixels@,
                    tile_size as int,
                    x % (tile_size as int),
                    y % (tile_size as int),
                )
            } else {
                clear_px()
            }),
{
    let n = tiles.len();
    let side = grid_side(n);
    proof {
        assert(side <= 16) by (nonlinear_arith)
            requires
                side > 0 ==> (side - 1) * (side - 1) < n,
                n <= 256,
                side <= 0x100,
        ;
        assert((side as int) * (tile_size as int) <= 0x1000) by (nonlinear_arith)
            requires
                side <= 16,
                tile_size <= 0x100,
        ;
    }
    let width: u32 = (side as u32) * tile_size;
    let mut atlas = Tile::blank(width, width);
    let ghost t = tile_size as int;
    let ghost si = side as int;
    proof {
        assert forall|x: int, y: int| 0 <= x < width && 0 <= y < width implies pix_at(
            atlas.pixels@,
            width as int,
            x,
            y,
        ) == clear_px() by {
            lemma_grid_bound(width as int, width as int, x, y);
        }
    }
    let mut i: usize = 0;
    while i < n
        invariant
            i <= n,
            n == tiles@.len(),
            n <= 256,
            side <= 16,
            1 <= tile_size <= 0x100,
            t == tile_size as int,
            si == side as int,
            n <= si * si,
            width == si * t,
            width <= 0x1000,
            forall|k: int|
                0 <= k < n ==> (#[trigger] tiles@[k]).wf() && tiles@[k].width == tile_size
                    && tiles@[k].height == tile_size,
            atlas.wf(),
            atlas.width == width,
            atlas.height == width,
            forall|x: int, y: int|
                0 <= x < width && 0 <= y < width ==> pix_at(atlas.pixels@, width as int, x, y)
                    == (if cell_of(x, y, t, si) < i {
                    pix_at(tiles@[cell_of(x, y, t, si)].pixels@, t, x % t, y % t)
                } else {
                    clear_px()
                }),
        decreases n - i,
    {
        let xi: u32 = (i % side) as u32;
        let yi: u32 = (i / side) as u32;
        proof {
            assert(si > 0) by (nonlinear_arith)
                requires
                    (i as int) < n,
                    n <= si * si,
                    si >= 0,
            ;
            vstd::arithmetic::div_mod::lemma_fundamental_div_mod(i as int, si);
            vstd::arithmetic::div_mod::lemma_mod_bound(i as int, si);
            assert((i as int) / si < si) by (nonlinear_arith)
                requires
                    (i as int) == si * ((i as int) / si) + ((i as int) % si),
                    0 <= (i as int) % si < si,
                    (i as int) < si * si,
            ;
            assert((xi as int) * t + t <= si * t && (yi as int) * t + t <= si * t) by (
            nonlinear_arith)
                requires
                    xi < si,
                    yi < si,
                    t >= 0,
                    xi as int == i as int % si,
                    yi as int == i as int / si,
            ;
        }
        let ox: u32 = xi * tile_size;
        let oy: u32 = yi * tile_size;
        let ghost before = atlas.pixels@;
        copy_into(&mut atlas, &tiles[i], ox, oy);
        proof {
            assert forall|x: int, y: int| 0 <= x < width && 0 <= y < width implies pix_at(
                atlas.pixels@,
                width as int,
                x,
                y,
            ) == (if cell_of(x, y, t, si) < i + 1 {
                pix_at(tiles@[cell_of(x, y, t, si)].pixels@, t, x % t, y % t)
            } else {
                clear_px()
            }) by {
                assert(si > 0) by (nonlinear_arith)
                    requires
                        (i as int) < n,
                        n <= si * si,
                        si >= 0,
                ;
                vstd::arithmetic::div_mod::lemma_fundamental_div_mod(x, t);
                vstd::arithmetic::div_mod::lemma_mod_bound(x, t);
                vstd::arithmetic::div_mod::lemma_fundamental_div_mod(y, t);
                vstd::arithmetic::div_mod::lemma_mod_bound(y, t);
                vstd::arithmetic::div_mod::lemma_fundamental_div_mod(i as int, si);
                vstd::arithmetic::div_mod::lemma_mod_bound(i as int, si);
                if ox <= x < ox + tile_size && oy <= y < oy + tile_size {
                    lemma_grid_decomp(t, x - ox, xi as int);
                    lemma_grid_decomp(t, y - oy, yi as int);
                    assert(x / t == xi as int && x % t == x - ox);
                    assert(y / t == yi as int && y % t == y - oy);
                    assert(cell_of(x, y, t, si) == (yi as int) * si + xi as int);
                    assert((yi as int) * si == si * (yi as int)) by (nonlinear_arith);
                    assert((yi as int) * si + xi as int == i as int);
                } else {
                    assert(pix_at(atlas.pixels@, width as int, x, y) == pix_at(
                        before,
                        width as int,
                        x,
                        y,
                    ));
                    if cell_of(x, y, t, si) == i as int {
                        assert(x / t < si) by (nonlinear_arith)
                            requires
                                x == t * (x / t) + x % t,
                                0 <= x % t < t,
                                0 <= x < si * t,
                        ;
                        lemma_grid_decomp(si, x / t, y / t);
                        assert((y / t) * si + x / t == i as int);
                        assert((y / t) * si == si * (y / t)) by (nonlinear_arith);
                        assert(x / t == i as int % si && y / t == i as int / si);
                        assert(x / t == xi as int && y / t == yi as int);
                        assert(ox <= x < ox + tile_size) by (nonlinear_arith)
                            requires
                                x == t * (x / t) + x % t,
                                0 <= x % t < t,
                                x / t == xi as int,
                                ox == (xi as int) * t,
                                tile_size as int == t,
                        ;
                        assert(oy <= y < oy + tile_size) by (nonlinear_arith)
                            requires
                                y == t * (y / t) + y % t,
                                0 <= y % t < t,
                                y / t == yi as int,
                                oy == (yi as int) * t,
                                tile_size as int == t,
                        ;
                        assert(false);
                    }
                }
            }
        }
        i = i + 1;
    }
    (atlas, side)
}

/// Copies `tile` into `target` with its top-left corner at the given
/// offset, replacing the pixels there outright.
fn copy_into(target: &mut Tile, tile: &Tile, x_offset: u32, y_offset: u32)
    requires
        old(target).wf(),
        tile.wf(),
        x_offset + tile.width <= old(target).width,
        y_offset + tile.height <= old(target).height,
    ensures
        final(target).wf(),
        final(target).width == old(target).width,
        final(target).height == old(target).height,
        forall|x: int, y: int|
            0 <= x < old(target).width && 0 <= y < old(target).height ==> pix_at(
                final(target).pixels@,
                old(target).width as int,
                x,
                y,
            ) == (if x_offset <= x < x_offset + tile.width && y_offset <= y < y_offset
                + tile.height {
                pix_at(tile.pixels@, tile.width as int, x - x_offset, y - y_offset)
            } else {
                pix_at(old(target).pixels@, old(target).width as int, x, y)
            }),
{
    let uw = target.width;
    let uh = target.height;
    let sw = tile.width;
    let sh = tile.height;
    let ghost orig = target.pixels@;
    let ghost ox = x_offset as int;
    let ghost oy = y_offset as int;
    let mut y: u32 = 0;
    while y < sh
        invariant
            y <= sh,
            target.wf(),
            tile.wf(),
            uw == target.width,
            uh == target.height,
            sw == tile.width,
            sh == tile.height,
            x_offset + sw <= uw,
            y_offset + sh <= uh,
            orig.len() == target.pixels@.len(),
            ox == x_offset as int,
            oy == y_offset as int,
            forall|xk: int, yk: int|
                0 <= xk < uw && 0 <= yk < uh ==> pix_at(target.pixels@, uw as int, xk, yk) == (
                if ox <= xk < ox + sw && oy <= yk < oy + y {
                    pix_at(tile.pixels@, sw as int, xk - ox, yk - oy)
                } else {
                    pix_at(orig, uw as int, xk, yk)
                }),
        decreases sh - y,
    {
        let mut x: u32 = 0;
        while x < sw
            invariant
                x <= sw,
                y < sh,
                target.wf(),
                tile.wf(),
                uw == target.width,
                uh == target.height,
                sw == tile.width,
                sh == tile.height,
                x_offset + sw <= uw,
                y_offset + sh <= uh,
                orig.len() == target.pixels@.len(),
                ox == x_offset as int,
                oy == y_offset as int,
                forall|xk: int, yk: int|
                    0 <= xk < uw && 0 <= yk < uh ==> pix_at(target.pixels@, uw as int, xk, yk)
                        == (if (ox <= xk < ox + sw && oy <= yk < oy + y) || (ox <= xk < ox + x
                        && yk == oy + y) {
                        pix_at(tile.pixels@, sw as int, xk - ox, yk - oy)
                    } else {
                        pix_at(orig, uw as int, xk, yk)
                    }),
            decreases sw - x,
        {
            proof {
                lemma_grid_bound(uw as int, uh as int, (x_offset + x) as int, (y_offset + y) as int);
                lemma_grid_bound(sw as int, sh as int, x as int, y as int);
                assert(((y_offset + y) as int) * (uw as int) <= 0x1000000) by (nonlinear_arith)
                    requires
                        y_offset + y <= 0x1000,
                        uw <= 0x1000,
                ;
                assert((y as int) * (sw as int) <= 0x1000000) by (nonlinear_arith)
                    requires
                        y <= 0x1000,
                        sw <= 0x1000,
                ;
            }
            let tidx: usize = ((y_offset + y) as usize) * (uw as usize) + ((x_offset + x) as usize);
            let sidx: usize = (y as usize) * (sw as usize) + (x as usize);
            let p = tile.pixels[sidx];
            let ghost before = target.pixels@;
            target.pixels[tidx] = p;
            proof {
                assert forall|xk: int, yk: int| 0 <= xk < uw && 0 <= yk < uh implies pix_at(
                    target.pixels@,
                    uw as int,
                    xk,
                    yk,
                ) == (if (ox <= xk < ox + sw && oy <= yk < oy + y) || (ox <= xk < ox + x + 1
                    && yk == oy + y) {
                    pix_at(tile.pixels@, sw as int, xk - ox, yk - oy)
                } else {
                    pix_at(orig, uw as int, xk, yk)
                }) by {
                    lemma_grid_decomp(uw as int, xk, yk);
                    lemma_grid_decomp(uw as int, (x_offset + x) as int, (y_offset + y) as int);
                    lemma_grid_bound(uw as int, uh as int, xk, yk);
                    if xk == ox + x && yk == oy + y {
                        assert(grid_idx(uw as int, xk, yk) == tidx);
                        assert(pix_at(target.pixels@, uw as int, xk, yk) == p);
                        assert(pix_at(tile.pixels@, sw as int, xk - ox, yk - oy) == p);
                    } else {
                        assert(grid_idx(uw as int, xk, yk) != tidx);
                        assert(pix_at(target.pixels@, uw as int, xk, yk) == pix_at(
                            before,
                            uw as int,
                            xk,
                            yk,
                        ));
                    }
                }
            }
            x = x + 1;
        }
        y = y + 1;
    }
}

} // verus!

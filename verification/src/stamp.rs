use vstd::prelude::*;
use crate::pixel::{blend_of, blend_px, Px};
use crate::tile::{grid_idx, lemma_grid_bound, lemma_grid_decomp, lemma_grid_pointwise, pix_at,
    Tile};

verus! {

/// The row-major sequence `under` (as wide as `uw`) with the sequence `top`
/// (of shape `tw` x `th`) alpha-composited over it, the top-left corner of
/// `top` at column `ox` of row `oy` of `under`.
pub open spec fn overlay_seq(
    under: Seq<Px>,
    uw: int,
    top: Seq<Px>,
    tw: int,
    th: int,
    ox: int,
    oy: int,
) -> Seq<Px> {
    Seq::new(
        under.len(),
        |i: int|
            (if ox <= i % uw < ox + tw && oy <= i / uw < oy + th {
                blend_of(under[i], top[grid_idx(tw, i % uw - ox, i / uw - oy)])
            } else {
                under[i]
            }),
    )
}

/// What one pixel of an overlaid buffer holds, read back by coordinates:
/// inside the stamped region it is the blend of the two pixels there, and
/// outside it the canvas pixel is untouched.
pub proof fn lemma_overlay_pix(
    under: Seq<Px>,
    uw: int,
    uh: int,
    top: Seq<Px>,
    tw: int,
    th: int,
    ox: int,
    oy: int,
    x: int,
    y: int,
)
    requires
        under.len() == uw * uh,
        0 <= x < uw,
        0 <= y < uh,
    ensures
        overlay_seq(under, uw, top, tw, th, ox, oy)[grid_idx(uw, x, y)] == (if ox <= x < ox + tw
            && oy <= y < oy + th {
            blend_of(pix_at(under, uw, x, y), top[grid_idx(tw, x - ox, y - oy)])
        } else {
            pix_at(under, uw, x, y)
        }),
{
    lemma_grid_decomp(uw, x, y);
    lemma_grid_bound(uw, uh, x, y);
}

/// Alpha-composites `stamp` onto `target` with its top-left corner at the
/// given offset, which must leave the stamp entirely inside the target.
pub fn stamp_with_offset(target: &mut Tile, stamp: &Tile, x_offset: u32, y_offset: u32)
    requires
        old(target).wf(),
        stamp.wf(),
        x_offset + stamp.width <= old(target).width,
        y_offset + stamp.height <= old(target).height,
    ensures
        final(target).wf(),
        final(target).width == old(target).width,
        final(target).height == old(target).height,
        final(target).pixels@ == overlay_seq(
            old(target).pixels@,
            old(target).width as int,
            stamp.pixels@,
            stamp.width as int,
            stamp.height as int,
            x_offset as int,
            y_offset as int,
        ),
        forall|x: int, y: int|
            0 <= x < stamp.width && 0 <= y < stamp.height && pix_at(
                stamp.pixels@,
                stamp.width as int,
                x,
                y,
            ).a == 255 ==> pix_at(
                final(target).pixels@,
                old(target).width as int,
                x + x_offset,
                y + y_offset,
            ) == pix_at(stamp.pixels@, stamp.width as int, x, y),
{
    let uw = target.width;
    let uh = target.height;
    let sw = stamp.width;
    let sh = stamp.height;
    let ghost orig = target.pixels@;
    let ghost ox = x_offset as int;
    let ghost oy = y_offset as int;
    let mut y: u32 = 0;
    while y < sh
        invariant
            y <= sh,
            target.wf(),
            stamp.wf(),
            uw == target.width,
            uh == target.height,
            sw == stamp.width,
            sh == stamp.height,
            x_offset + sw <= uw,
            y_offset + sh <= uh,
            orig.len() == target.pixels@.len(),
            ox == x_offset as int,
            oy == y_offset as int,
            forall|xk: int, yk: int|
                0 <= xk < uw && 0 <= yk < uh ==> pix_at(target.pixels@, uw as int, xk, yk) == (
                if ox <= xk < ox + sw && oy <= yk < oy + y {
                    blend_of(
                        pix_at(orig, uw as int, xk, yk),
                        pix_at(stamp.pixels@, sw as int, xk - ox, yk - oy),
                    )
                } else {
                    pix_at(orig, uw as int, xk, yk)
                }),
            forall|xk: int, yk: int|
                ox <= xk < ox + sw && oy <= yk < oy + y && pix_at(
                    stamp.pixels@,
                    sw as int,
                    xk - ox,
                    yk - oy,
                ).a == 255 ==> pix_at(target.pixels@, uw as int, xk, yk) == pix_at(
                    stamp.pixels@,
                    sw as int,
                    xk - ox,
                    yk - oy,
                ),
        decreases sh - y,
    {
        let mut x: u32 = 0;
        while x < sw
            invariant
                x <= sw,
                y < sh,
                target.wf(),
                stamp.wf(),
                uw == target.width,
                uh == target.height,
                sw == stamp.width,
                sh == stamp.height,
                x_offset + sw <= uw,
                y_offset + sh <= uh,
                orig.len() == target.pixels@.len(),
                ox == x_offset as int,
                oy == y_offset as int,
                forall|xk: int, yk: int|
                    0 <= xk < uw && 0 <= yk < uh ==> pix_at(target.pixels@, uw as int, xk, yk)
                        == (if (ox <= xk < ox + sw && oy <= yk < oy + y) || (ox <= xk < ox + x
                        && yk == oy + y) {
                        blend_of(
                            pix_at(orig, uw as int, xk, yk),
                            pix_at(stamp.pixels@, sw as int, xk - ox, yk - oy),
                        )
                    } else {
                        pix_at(orig, uw as int, xk, yk)
                    }),
                forall|xk: int, yk: int|
                    ((ox <= xk < ox + sw && oy <= yk < oy + y) || (ox <= xk < ox + x && yk == oy
                        + y)) && pix_at(stamp.pixels@, sw as int, xk - ox, yk - oy).a == 255
                        ==> pix_at(target.pixels@, uw as int, xk, yk) == pix_at(
                        stamp.pixels@,
                        sw as int,
                        xk - ox,
                        yk - oy,
                    ),
            decreases sw - x,
        {
            proof {
                lemma_grid_bound(uw as int, uh as int, (x_offset + x) as int, (y_offset + y) as int);
                lemma_grid_bound(sw as int, sh as int, x as int, y as int);
                assert(((y_offset + y) as int) * (uw as int) <= 0x1000000) by (nonlinear_arith)
                    requires
                        y_offset + y <= 0x1000,
                        uw <= 0x1000,
                ;
                assert((y as int) * (sw as int) <= 0x1000000) by (nonlinear_arith)
                    requires
                        y <= 0x1000,
                        sw <= 0x1000,
                ;
            }
            let tidx: usize = ((y_offset + y) as usize) * (uw as usize) + ((x_offset + x) as usize);
            let sidx: usize = (y as usize) * (sw as usize) + (x as usize);
            let under_px = target.pixels[tidx];
            let top_px = stamp.pixels[sidx];
            let blended = blend_px(under_px, top_px);
            let ghost before = target.pixels@;
            target.pixels[tidx] = blended;
            proof {
                assert forall|xk: int, yk: int| 0 <= xk < uw && 0 <= yk < uh implies pix_at(
                    target.pixels@,
                    uw as int,
                    xk,
                    yk,
                ) == (if (ox <= xk < ox + sw && oy <= yk < oy + y) || (ox <= xk < ox + x + 1
                    && yk == oy + y) {
                    blend_of(
                        pix_at(orig, uw as int, xk, yk),
                        pix_at(stamp.pixels@, sw as int, xk - ox, yk - oy),
                    )
                } else {
                    pix_at(orig, uw as int, xk, yk)
                }) by {
                    lemma_grid_decomp(uw as int, xk, yk);
                    lemma_grid_decomp(uw as int, (x_offset + x) as int, (y_offset + y) as int);
                    lemma_grid_bound(uw as int, uh as int, xk, yk);
                    if xk == ox + x && yk == oy + y {
                        assert(grid_idx(uw as int, xk, yk) == tidx);
                        assert(pix_at(target.pixels@, uw as int, xk, yk) == blended);
                        assert(pix_at(before, uw as int, xk, yk) == under_px);
                        assert(pix_at(orig, uw as int, xk, yk) == under_px);
                        assert(pix_at(stamp.pixels@, sw as int, xk - ox, yk - oy) == top_px);
                    } else {
                        assert(grid_idx(uw as int, xk, yk) != tidx);
                        assert(pix_at(target.pixels@, uw as int, xk, yk) == pix_at(
                            before,
                            uw as int,
                            xk,
                            yk,
                        ));
                    }
                }
                assert forall|xk: int, yk: int|
                    ((ox <= xk < ox + sw && oy <= yk < oy + y) || (ox <= xk < ox + x + 1 && yk
                        == oy + y)) && pix_at(stamp.pixels@, sw as int, xk - ox, yk - oy).a == 255
                    implies pix_at(target.pixels@, uw as int, xk, yk) == pix_at(
                    stamp.pixels@,
                    sw as int,
                    xk - ox,
                    yk - oy,
                ) by {
                    lemma_grid_decomp(uw as int, xk, yk);
                    lemma_grid_decomp(uw as int, (x_offset + x) as int, (y_offset + y) as int);
                    lemma_grid_bound(uw as int, uh as int, xk, yk);
                    if xk == ox + x && yk == oy + y {
                        assert(grid_idx(uw as int, xk, yk) == tidx);
                        assert(pix_at(target.pixels@, uw as int, xk, yk) == blended);
                        assert(pix_at(stamp.pixels@, sw as int, xk - ox, yk - oy) == top_px);
                    } else {
                        assert(grid_idx(uw as int, xk, yk) != tidx);
                        assert(pix_at(target.pixels@, uw as int, xk, yk) == pix_at(
                            before,
                            uw as int,
                            xk,
                            yk,
                        ));
                    }
                }
            }
            x = x + 1;
        }
        y = y + 1;
    }
    proof {
        let uwi = uw as int;
        let uhi = uh as int;
        let result = overlay_seq(orig, uwi, stamp.pixels@, sw as int, sh as int, ox, oy);
        assert(result.len() == uwi * uhi);
        assert forall|xk: int, yk: int| 0 <= xk < uwi && 0 <= yk < uhi implies pix_at(
            target.pixels@,
            uwi,
            xk,
            yk,
        ) == pix_at(result, uwi, xk, yk) by {
            lemma_overlay_pix(orig, uwi, uhi, stamp.pixels@, sw as int, sh as int, ox, oy, xk, yk);
        }
        lemma_grid_pointwise(target.pixels@, result, uwi, uhi);
    }
}

/// The stamp drawn with its top-left corner on the canvas's top-left
/// corner.
pub fn stamp_top_left(target: Tile, stamp: &Tile) -> (r: Tile)
    requires
        target.wf(),
        stamp.wf(),
        stamp.width <= target.width,
        stamp.height <= target.height,
    ensures
        r.wf(),
        r.width == target.width,
        r.height == target.height,
        r.pixels@ == overlay_seq(
            target.pixels@,
            target.width as int,
            stamp.pixels@,
            stamp.width as int,
            stamp.height as int,
            0,
            0,
        ),
{
    let mut target = target;
    stamp_with_offset(&mut target, stamp, 0, 0);
    target
}

/// The stamp drawn against the canvas's top-right corner: its top-left
/// pixel lands at column `target.width - stamp.width` of row 0.
pub fn stamp_top_right(target: Tile, stamp: &Tile) -> (r: Tile)
    requires
        target.wf(),
        stamp.wf(),
        stamp.width <= target.width,
        stamp.height <= target.height,
    ensures
        r.wf(),
        r.width == target.width,
        r.height == target.height,
        r.pixels@ == overlay_seq(
            target.pixels@,
            target.width as int,
            stamp.pixels@,
            stamp.width as int,
            stamp.height as int,
            target.width - stamp.width,
            0,
        ),
{
    let mut target = target;
    let x_offset = target.width - stamp.width;
    stamp_with_offset(&mut target, stamp, x_offset, 0);
    target
}

/// The stamp drawn against the canvas's bottom-left corner: its top-left
/// pixel lands at column 0 of row `target.height - stamp.height`.
pub fn stamp_bottom_left(target: Tile, stamp: &Tile) -> (r: Tile)
    requires
        target.wf(),
        stamp.wf(),
        stamp.width <= target.width,
        stamp.height <= target.height,
    ensures
        r.wf(),
        r.width == target.width,
        r.height == target.height,
        r.pixels@ == overlay_seq(
            target.pixels@,
            target.width as int,
            stamp.pixels@,
            stamp.width as int,
            stamp.height as int,
            0,
            target.height - stamp.height,
        ),
{
    let mut target = target;
    let y_offset = target.height - stamp.height;
    stamp_with_offset(&mut target, stamp, 0, y_offset);
    target
}

/// The stamp drawn against the canvas's bottom-right corner: its top-left
/// pixel lands at column `target.width - stamp.width` of row
/// `target.height - stamp.height`.
pub fn stamp_bottom_right(target: Tile, stamp: &Tile) -> (r: Tile)
    requires
        target.wf(),
        stamp.wf(),
        stamp.width <= target.width,
        stamp.height <= target.height,
    ensures
        r.wf(),
        r.width == target.width,
        r.height == target.height,
        r.pixels@ == overlay_seq(
            target.pixels@,
            target.width as int,
            stamp.pixels@,
            stamp.width as int,
            stamp.height as int,
            target.width - stamp.width,
            target.height - stamp.height,
        ),
{
    let mut target = target;
    let x_offset = target.width - stamp.width;
    let y_offset = target.height - stamp.height;
    stamp_with_offset(&mut target, stamp, x_offset, y_offset);
    target
}

} // verus!

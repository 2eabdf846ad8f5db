use vstd::prelude::*;
use crate::atlas::{is_ceil_sqrt, lemma_ceil_sqrt_unique};
use crate::pairs::{adjacency_ok, back_constraint, back_seq, bit_set, satisfies, std_constraint,
    std_pair_data, top_seq, Adjacency};
use crate::pixel::{blend_of, clear_px, Px};
use crate::stamp::{lemma_overlay_pix, overlay_seq};
use crate::tile::{blank_seq, pix_at, same_image};
use crate::resolve::resolve_after;
use crate::{atlas_ok, resolved_mask, Atlas};

verus! {

/// Resolution is deterministic: any two atlases generated from the same
/// source image and tile size give every bitmask a pixel-identical tile.
pub proof fn lemma_resolution_deterministic(
    a1: Atlas,
    a2: Atlas,
    img: Seq<Px>,
    iw: int,
    tile_size: u32,
    b: int,
)
    requires
        atlas_ok(a1, img, iw, tile_size),
        atlas_ok(a2, img, iw, tile_size),
        0 <= b < 256,
    ensures
        a1.tiles@[a1.atlas_indices@[b] as int].pixels@ == a2.tiles@[a2.atlas_indices@[b] as int].pixels@,
{
}

/// Every direction bit of the zero bitmask is clear.
proof fn lemma_bits_of_zero()
    ensures
        forall|i: u8| i < 8 ==> !bit_set(0u8, i),
{
    assert forall|i: u8| i < 8 implies !bit_set(0u8, i) by {
        assert((0u8 >> i) & 1 == 0) by (bit_vector)
            requires
                i < 8,
        ;
    }
}

/// Every direction bit of bitmask 255 is set.
proof fn lemma_bits_of_255()
    ensures
        forall|i: u8| i < 8 ==> bit_set(255u8, i),
{
    assert forall|i: u8| i < 8 implies bit_set(255u8, i) by {
        assert((255u8 >> i) & 1 == 1) by (bit_vector)
            requires
                i < 8,
        ;
    }
}

/// The universal back pair matches a bitmask exactly when every one of
/// its eight direction bits is set, that is, only bitmask 255; and the
/// base canvas of every bitmask's resolution is the back fragment
/// regardless, before any pair has been tested.
pub proof fn lemma_back_pair_matches(img: Seq<Px>, iw: int, t: int, mask: u8)
    ensures
        satisfies(mask, back_constraint()) <==> mask == 255,
        resolve_after(back_seq(img, iw, t), t, std_pair_data(img, iw, t), mask, 0) == back_seq(
            img,
            iw,
            t,
        ),
{
    if satisfies(mask, back_constraint()) {
        assert(adjacency_ok(mask, back_constraint()[0], 0));
        assert(adjacency_ok(mask, back_constraint()[1], 1));
        assert(adjacency_ok(mask, back_constraint()[2], 2));
        assert(adjacency_ok(mask, back_constraint()[3], 3));
        assert(adjacency_ok(mask, back_constraint()[4], 4));
        assert(adjacency_ok(mask, back_constraint()[5], 5));
        assert(adjacency_ok(mask, back_constraint()[6], 6));
        assert(adjacency_ok(mask, back_constraint()[7], 7));
        assert(mask == 255) by (bit_vector)
            requires
                (mask >> 0u8) & 1 == 1,
                (mask >> 1u8) & 1 == 1,
                (mask >> 2u8) & 1 == 1,
                (mask >> 3u8) & 1 == 1,
                (mask >> 4u8) & 1 == 1,
                (mask >> 5u8) & 1 == 1,
                (mask >> 6u8) & 1 == 1,
                (mask >> 7u8) & 1 == 1,
        ;
    }
    if mask == 255 {
        lemma_bits_of_255();
        assert forall|i: int| 0 <= i < 8 implies adjacency_ok(mask, back_constraint()[i], i as u8)
            by {
            assert(bit_set(255u8, i as u8));
        }
    }
}

/// Skipping pairs that do not match leaves the composite unchanged.
proof fn lemma_resolve_skip(
    base: Seq<Px>,
    t: int,
    pd: Seq<(Seq<Adjacency>, Seq<Px>)>,
    mask: u8,
    a: int,
    b: int,
)
    requires
        0 <= a <= b <= pd.len(),
        forall|k: int| a <= k < b ==> !satisfies(mask, (#[trigger] pd[k]).0),
    ensures
        resolve_after(base, t, pd, mask, b) == resolve_after(base, t, pd, mask, a),
    decreases b - a,
{
    if a < b {
        lemma_resolve_skip(base, t, pd, mask, a, b - 1);
    }
}

/// The top cap enters the resolved tile exactly when bit 0 of the mask
/// is clear: with open space above, the cap is the last composite; with a
/// neighbour above, the resolved tile is the bare pair composite.
pub proof fn lemma_top_cap(img: Seq<Px>, iw: int, t: int, mask: u8)
    ensures
        mask & 1 == 0 ==> resolved_mask(img, iw, t, mask) == overlay_seq(
            resolve_after(back_seq(img, iw, t), t, std_pair_data(img, iw, t), mask, 17),
            t,
            top_seq(img, iw, t),
            t,
            t,
            0,
            0,
        ),
        mask & 1 != 0 ==> resolved_mask(img, iw, t, mask) == resolve_after(
            back_seq(img, iw, t),
            t,
            std_pair_data(img, iw, t),
            mask,
            17,
        ),
{
    assert(std_pair_data(img, iw, t).len() == 17);
}

/// For bitmask 255, every neighbour present, no corner pair matches and
/// no top cap is drawn: the resolved tile is the back fragment with the
/// back pair, which is that same fragment, composited once over it.
pub proof fn lemma_mask_255(img: Seq<Px>, iw: int, t: int)
    ensures
        resolved_mask(img, iw, t, 255) == overlay_seq(
            back_seq(img, iw, t),
            t,
            back_seq(img, iw, t),
            t,
            t,
            0,
            0,
        ),
{
    let pd = std_pair_data(img, iw, t);
    let back = back_seq(img, iw, t);
    lemma_bits_of_255();
    assert forall|k: int| 0 <= k < 16 implies !satisfies(255u8, (#[trigger] pd[k]).0) by {
        assert(pd[k].0 == std_constraint(k));
        let c = std_constraint(k);
        let d = absent_dir(k);
        assert(c[d] == Adjacency::Absent);
        assert(bit_set(255u8, d as u8));
        assert(!adjacency_ok(255u8, c[d], d as u8));
    }
    lemma_resolve_skip(back, t, pd, 255u8, 0, 16);
    lemma_back_pair_matches(img, iw, t, 255u8);
    assert(satisfies(255u8, pd[16].0));
    assert(resolve_after(back, t, pd, 255u8, 17) == overlay_seq(
        resolve_after(back, t, pd, 255u8, 16),
        t,
        pd[16].1,
        t,
        t,
        0,
        0,
    ));
    assert(255u8 & 1 == 1) by (bit_vector);
}

/// A direction that the `k`-th corner pair demands absent.
spec fn absent_dir(k: int) -> int {
    if k == 0 {
        7
    } else if k == 1 {
        1
    } else if k == 2 {
        3
    } else if k == 3 {
        5
    } else if k == 4 {
        6
    } else if k == 5 {
        0
    } else if k == 6 {
        0
    } else if k == 7 {
        2
    } else if k == 8 {
        2
    } else if k == 9 {
        4
    } else if k == 10 {
        4
    } else if k == 11 {
        6
    } else if k == 12 {
        0
    } else if k == 13 {
        0
    } else if k == 14 {
        2
    } else {
        4
    }
}

/// A direction that the `k`-th corner pair demands present, for the
/// twelve pairs that demand one.
spec fn present_dir(k: int) -> int {
    if k == 0 {
        0
    } else if k == 1 {
        0
    } else if k == 2 {
        2
    } else if k == 3 {
        4
    } else if k == 4 {
        0
    } else if k == 5 {
        6
    } else if k == 6 {
        2
    } else if k == 7 {
        0
    } else if k == 8 {
        4
    } else if k == 9 {
        2
    } else if k == 10 {
        6
    } else {
        4
    }
}

/// For bitmask 0, no neighbour present, exactly the four outer-corner
/// pairs match, in order, and the top cap is drawn over the result.
pub proof fn lemma_mask_zero(img: Seq<Px>, iw: int, t: int)
    ensures
        resolved_mask(img, iw, t, 0) == overlay_seq(
            overlay_seq(
                overlay_seq(
                    overlay_seq(
                        overlay_seq(
                            back_seq(img, iw, t),
                            t,
                            std_pair_data(img, iw, t)[12].1,
                            t,
                            t,
                            0,
                            0,
                        ),
                        t,
                        std_pair_data(img, iw, t)[13].1,
                        t,
                        t,
                        0,
                        0,
                    ),
                    t,
                    std_pair_data(img, iw, t)[14].1,
                    t,
                    t,
                    0,
                    0,
                ),
                t,
                std_pair_data(img, iw, t)[15].1,
                t,
                t,
                0,
                0,
            ),
            t,
            top_seq(img, iw, t),
            t,
            t,
            0,
            0,
        ),
{
    let pd = std_pair_data(img, iw, t);
    let back = back_seq(img, iw, t);
    lemma_bits_of_zero();
    assert forall|k: int| 0 <= k < 12 implies !satisfies(0u8, (#[trigger] pd[k]).0) by {
        assert(pd[k].0 == std_constraint(k));
        let c = std_constraint(k);
        let d = present_dir(k);
        assert(c[d] == Adjacency::Present);
        assert(!bit_set(0u8, d as u8));
        assert(!adjacency_ok(0u8, c[d], d as u8));
    }
    lemma_resolve_skip(back, t, pd, 0u8, 0, 12);
    assert forall|k: int| 12 <= k < 16 implies satisfies(0u8, (#[trigger] pd[k]).0) by {
        assert(pd[k].0 == std_constraint(k));
        let c = std_constraint(k);
        assert forall|i: int| 0 <= i < c.len() implies adjacency_ok(0u8, c[i], i as u8) by {
            assert(!bit_set(0u8, i as u8));
        }
    }
    lemma_back_pair_matches(img, iw, t, 0u8);
    assert(!satisfies(0u8, pd[16].0));
    lemma_resolve_skip(back, t, pd, 0u8, 16, 17);
    assert(0u8 & 1 == 0) by (bit_vector);
    assert(pd.len() == 17);
    assert(resolve_after(back, t, pd, 0u8, 12) == back);
    assert(resolve_after(back, t, pd, 0u8, 13) == overlay_seq(back, t, pd[12].1, t, t, 0, 0));
    assert(resolve_after(back, t, pd, 0u8, 14) == overlay_seq(
        resolve_after(back, t, pd, 0u8, 13),
        t,
        pd[13].1,
        t,
        t,
        0,
        0,
    ));
    assert(resolve_after(back, t, pd, 0u8, 15) == overlay_seq(
        resolve_after(back, t, pd, 0u8, 14),
        t,
        pd[14].1,
        t,
        t,
        0,
        0,
    ));
    assert(resolve_after(back, t, pd, 0u8, 16) == overlay_seq(
        resolve_after(back, t, pd, 0u8, 15),
        t,
        pd[15].1,
        t,
        t,
        0,
        0,
    ));
}

/// Deduplication collapses exactly the bitmasks that resolve alike: two
/// bitmasks share an atlas slot when and only when their resolved tiles
/// are pixel-identical.
pub proof fn lemma_dedup_exact(
    a: Atlas,
    img: Seq<Px>,
    iw: int,
    tile_size: u32,
    x: int,
    y: int,
)
    requires
        atlas_ok(a, img, iw, tile_size),
        0 <= x < 256,
        0 <= y < 256,
    ensures
        a.atlas_indices@[x] == a.atlas_indices@[y] <==> resolved_mask(
            img,
            iw,
            tile_size as int,
            x as u8,
        ) == resolved_mask(img, iw, tile_size as int, y as u8),
{
    let ix = a.atlas_indices@[x] as int;
    let iy = a.atlas_indices@[y] as int;
    if resolved_mask(img, iw, tile_size as int, x as u8) == resolved_mask(
        img,
        iw,
        tile_size as int,
        y as u8,
    ) {
        assert(a.tiles@[ix].pixels@ == a.tiles@[iy].pixels@);
        if ix != iy {
            assert(a.tiles@[ix].wf() && a.tiles@[ix].width == tile_size && a.tiles@[ix].height
                == tile_size);
            assert(a.tiles@[iy].wf() && a.tiles@[iy].width == tile_size && a.tiles@[iy].height
                == tile_size);
            assert(same_image(a.tiles@[ix], a.tiles@[iy]));
            assert(same_image(a.tiles@[iy], a.tiles@[ix]));
            if ix < iy {
                assert(!same_image(a.tiles@[ix], a.tiles@[iy]));
            } else {
                assert(!same_image(a.tiles@[iy], a.tiles@[ix]));
            }
            assert(false);
        }
    }
}

/// The atlas image is the ceiling-square of the distinct-tile count on a
/// side: whatever witnesses the ceiling square root of that count gives
/// the atlas edge when multiplied by the tile size.
pub proof fn lemma_atlas_dims(a: Atlas, img: Seq<Px>, iw: int, tile_size: u32, s: int)
    requires
        atlas_ok(a, img, iw, tile_size),
        is_ceil_sqrt(s, a.tiles@.len() as int),
    ensures
        a.image.width == s * tile_size,
        a.image.height == s * tile_size,
{
    lemma_ceil_sqrt_unique(s, a.side as int, a.tiles@.len() as int);
    assert((a.side as int) * (tile_size as int) == s * tile_size);
}

/// Stamping a half-tile fragment at the bottom-right corner of a blank
/// even-sided canvas puts the fragment's top-left pixel exactly at the
/// canvas coordinate (t/2, t/2), and pixel (dx, dy) of the fragment at
/// (t/2 + dx, t/2 + dy).
pub proof fn lemma_bottom_right_offset(frag: Seq<Px>, t: int, dx: int, dy: int)
    requires
        t > 0,
        t % 2 == 0,
        frag.len() == (t / 2) * (t / 2),
        0 <= dx < t / 2,
        0 <= dy < t / 2,
    ensures
        pix_at(
            overlay_seq(blank_seq(t * t), t, frag, t / 2, t / 2, t - t / 2, t - t / 2),
            t,
            t / 2 + dx,
            t / 2 + dy,
        ) == blend_of(clear_px(), pix_at(frag, t / 2, dx, dy)),
{
    let h = t / 2;
    assert(t == 2 * h + t % 2);
    assert(t - h == h);
    assert(h * h + h <= t * t && 0 <= h + dx < t && 0 <= h + dy < t) by (nonlinear_arith)
        requires
            t == 2 * h,
            h > 0,
            0 <= dx < h,
            0 <= dy < h,
    ;
    lemma_overlay_pix(blank_seq(t * t), t, t, frag, h, h, h, h, h + dx, h + dy);
    crate::tile::lemma_grid_bound(t, t, h + dx, h + dy);
}

} // verus!

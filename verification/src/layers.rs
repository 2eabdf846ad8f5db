use vstd::prelude::*;
use crate::hash::{calculate_hash, hash_of};
use crate::pixel::Px;
use crate::stamp::{overlay_seq, stamp_with_offset};
use crate::tile::{rect_seq, rot180_seq, rot270_seq, rot90_seq, rotate180, rotate270, rotate90,
    same_image, Tile};

verus! {

/// Columns of the layer grid: the source sheet is read as a grid ten
/// tiles wide, numbered row-major.
pub const IMAGE_TILE_SIZE: u32 = 10;

/// The pixels of layer swatch `idx` of the source sheet: the `t` x `t`
/// cell at column `idx % 10`, row `idx / 10`.
pub open spec fn layer_rect(img: Seq<Px>, iw: int, t: int, idx: int) -> Seq<Px> {
    rect_seq(img, iw, (idx % 10) * t, (idx / 10) * t, t, t)
}

/// One tile-sized buffer alpha-composited over another at the origin.
pub open spec fn blended(under: Seq<Px>, top: Seq<Px>, t: int) -> Seq<Px> {
    overlay_seq(under, t, top, t, t, 0, 0)
}

/// Cuts the listed layer swatches out of the source sheet, in order.
pub fn get_tiles_by_index(img: &Tile, indices: &Vec<u8>, tile_size: u32) -> (tiles: Vec<Tile>)
    requires
        img.wf(),
        1 <= tile_size,
        10 * tile_size <= img.width,
        forall|k: int|
            0 <= k < indices@.len() ==> ((#[trigger] indices@[k]) / 10 + 1) * tile_size
                <= img.height,
    ensures
        tiles@.len() == indices@.len(),
        forall|k: int|
            0 <= k < indices@.len() ==> (#[trigger] tiles@[k]).wf() && tiles@[k].width == tile_size
                && tiles@[k].height == tile_size && tiles@[k].pixels@ == layer_rect(
                img.pixels@,
                img.width as int,
                tile_size as int,
                indices@[k] as int,
            ),
{
    let mut tiles: Vec<Tile> = Vec::new();
    let n = indices.len();
    let mut i: usize = 0;
    while i < n
        invariant
            i <= n,
            n == indices@.len(),
            img.wf(),
            1 <= tile_size,
            10 * tile_size <= img.width,
            forall|k: int|
                0 <= k < n ==> ((#[trigger] indices@[k]) / 10 + 1) * tile_size <= img.height,
            tiles@.len() == i,
            forall|k: int|
                0 <= k < i ==> (#[trigger] tiles@[k]).wf() && tiles@[k].width == tile_size
                    && tiles@[k].height == tile_size && tiles@[k].pixels@ == layer_rect(
                    img.pixels@,
                    img.width as int,
                    tile_size as int,
                    indices@[k] as int,
                ),
        decreases n - i,
    {
        let idx = indices[i];
        let x_start_index: u32 = (idx % 10) as u32;
        let y_start_index: u32 = (idx / 10) as u32;
        proof {
            assert(x_start_index < 10);
            assert((x_start_index as int) * (tile_size as int) + tile_size <= 10 * (
            tile_size as int)) by (nonlinear_arith)
                requires
                    x_start_index < 10,
            ;
            assert((y_start_index as int + 1) * tile_size == (y_start_index as int) * (
            tile_size as int) + tile_size) by (nonlinear_arith);
        }
        let x_start_px = x_start_index * tile_size;
        let y_start_px = y_start_index * tile_size;
        let tile = crate::tile::copy_pixels(img, x_start_px, y_start_px, tile_size, tile_size);
        tiles.push(tile);
        i = i + 1;
    }
    tiles
}

/// Every tile of `front_tiles` composited over every tile of
/// `back_tiles`: one output per ordered combination, back-major.
pub fn overlay_tiles(back_tiles: &Vec<Tile>, front_tiles: &Vec<Tile>) -> (tiles: Vec<Tile>)
    requires
        forall|i: int| 0 <= i < back_tiles@.len() ==> (#[trigger] back_tiles@[i]).wf(),
        forall|j: int| 0 <= j < front_tiles@.len() ==> (#[trigger] front_tiles@[j]).wf(),
        forall|i: int, j: int|
            0 <= i < back_tiles@.len() && 0 <= j < front_tiles@.len() ==> (
            #[trigger] front_tiles@[j]).width <= (#[trigger] back_tiles@[i]).width
                && front_tiles@[j].height <= back_tiles@[i].height,
        back_tiles@.len() * front_tiles@.len() <= 0x10000,
    ensures
        tiles@.len() == back_tiles@.len() * front_tiles@.len(),
        forall|i: int, j: int|
            0 <= i < back_tiles@.len() && 0 <= j < front_tiles@.len() ==> {
                let r = #[trigger] tiles@[i * front_tiles@.len() + j];
                &&& r.wf()
                &&& r.width == back_tiles@[i].width
                &&& r.height == back_tiles@[i].height
                &&& r.pixels@ == overlay_seq(
                    back_tiles@[i].pixels@,
                    back_tiles@[i].width as int,
                    front_tiles@[j].pixels@,
                    front_tiles@[j].width as int,
                    front_tiles@[j].height as int,
                    0,
                    0,
                )
            },
{
    let mut tiles: Vec<Tile> = Vec::new();
    let n = back_tiles.len();
    let m = front_tiles.len();
    let mut i: usize = 0;
    while i < n
        invariant
            i <= n,
            n == back_tiles@.len(),
            m == front_tiles@.len(),
            n * m <= 0x10000,
            forall|i0: int| 0 <= i0 < n ==> (#[trigger] back_tiles@[i0]).wf(),
            forall|j0: int| 0 <= j0 < m ==> (#[trigger] front_tiles@[j0]).wf(),
            forall|i0: int, j0: int|
                0 <= i0 < n && 0 <= j0 < m ==> (#[trigger] front_tiles@[j0]).width <= (
                #[trigger] back_tiles@[i0]).width && front_tiles@[j0].height
                    <= back_tiles@[i0].height,
            tiles@.len() == i * m,
            forall|i0: int, j0: int|
                0 <= i0 < i && 0 <= j0 < m ==> {
                    let r = #[trigger] tiles@[i0 * m + j0];
                    &&& r.wf()
                    &&& r.width == back_tiles@[i0].width
                    &&& r.height == back_tiles@[i0].height
                    &&& r.pixels@ == overlay_seq(
                        back_tiles@[i0].pixels@,
                        back_tiles@[i0].width as int,
                        front_tiles@[j0].pixels@,
                        front_tiles@[j0].width as int,
                        front_tiles@[j0].height as int,
                        0,
                        0,
                    )
                },
        decreases n - i,
    {
        let mut j: usize = 0;
        while j < m
            invariant
                j <= m,
                i < n,
                n == back_tiles@.len(),
                m == front_tiles@.len(),
                n * m <= 0x10000,
                forall|i0: int| 0 <= i0 < n ==> (#[trigger] back_tiles@[i0]).wf(),
                forall|j0: int| 0 <= j0 < m ==> (#[trigger] front_tiles@[j0]).wf(),
                forall|i0: int, j0: int|
                    0 <= i0 < n && 0 <= j0 < m ==> (#[trigger] front_tiles@[j0]).width <= (
                    #[trigger] back_tiles@[i0]).width && front_tiles@[j0].height
                        <= back_tiles@[i0].height,
                tiles@.len() == i * m + j,
                forall|i0: int, j0: int|
                    (0 <= i0 < i && 0 <= j0 < m) || (i0 == i && 0 <= j0 < j) ==> {
                        let r = #[trigger] tiles@[i0 * m + j0];
                        &&& r.wf()
                        &&& r.width == back_tiles@[i0].width
                        &&& r.height == back_tiles@[i0].height
                        &&& r.pixels@ == overlay_seq(
                            back_tiles@[i0].pixels@,
                            back_tiles@[i0].width as int,
                            front_tiles@[j0].pixels@,
                            front_tiles@[j0].width as int,
                            front_tiles@[j0].height as int,
                            0,
                            0,
                        )
                    },
            decreases m - j,
        {
            let ghost old_tiles = tiles@;
            let mut tile = back_tiles[i].duplicate();
            stamp_with_offset(&mut tile, &front_tiles[j], 0, 0);
            tiles.push(tile);
            proof {
                assert forall|i0: int, j0: int|
                    (0 <= i0 < i && 0 <= j0 < m) || (i0 == i && 0 <= j0 < j + 1) implies {
                    let r = #[trigger] tiles@[i0 * m + j0];
                    &&& r.wf()
                    &&& r.width == back_tiles@[i0].width
                    &&& r.height == back_tiles@[i0].height
                    &&& r.pixels@ == overlay_seq(
                        back_tiles@[i0].pixels@,
                        back_tiles@[i0].width as int,
                        front_tiles@[j0].pixels@,
                        front_tiles@[j0].width as int,
                        front_tiles@[j0].height as int,
                        0,
                        0,
                    )
                } by {
                    if i0 == i && j0 == j as int {
                        assert(tiles@[i0 * m + j0] == tile);
                    } else {
                        assert(0 <= i0 * m + j0 < i * m + j) by (nonlinear_arith)
                            requires
                                (0 <= i0 < i && 0 <= j0 < m) || (i0 == i && 0 <= j0 < j),
                                !(i0 == i && j0 == j),
                                0 <= i,
                                0 <= j < m,
                        ;
                        assert(tiles@[i0 * m + j0] == old_tiles[i0 * m + j0]);
                    }
                }
            }
            j = j + 1;
        }
        i = i + 1;
        proof {
            assert(i * m == (i - 1) * m + m) by (nonlinear_arith);
        }
    }
    tiles
}

/// Each tile followed by its three further quarter-turn rotations:
/// four outputs, in turn order, per input.
pub fn get_rotated_permutations(tiles: &Vec<Tile>) -> (all_tiles: Vec<Tile>)
    requires
        forall|i: int| 0 <= i < tiles@.len() ==> (#[trigger] tiles@[i]).wf(),
        tiles@.len() * 4 <= 0x10000,
    ensures
        all_tiles@.len() == tiles@.len() * 4,
        forall|i: int|
            0 <= i < tiles@.len() ==> (#[trigger] all_tiles@[4 * i]).wf() && same_image(
                all_tiles@[4 * i],
                tiles@[i],
            ),
        forall|i: int|
            0 <= i < tiles@.len() ==> (#[trigger] all_tiles@[4 * i + 1]).wf() && all_tiles@[4 * i
                + 1].width == tiles@[i].height && all_tiles@[4 * i + 1].height == tiles@[i].width
                && all_tiles@[4 * i + 1].pixels@ == rot90_seq(
                tiles@[i].pixels@,
                tiles@[i].width as int,
                tiles@[i].height as int,
            ),
        forall|i: int|
            0 <= i < tiles@.len() ==> (#[trigger] all_tiles@[4 * i + 2]).wf() && all_tiles@[4 * i
                + 2].width == tiles@[i].width && all_tiles@[4 * i + 2].height == tiles@[i].height
                && all_tiles@[4 * i + 2].pixels@ == rot180_seq(
                tiles@[i].pixels@,
                tiles@[i].width as int,
                tiles@[i].height as int,
            ),
        forall|i: int|
            0 <= i < tiles@.len() ==> (#[trigger] all_tiles@[4 * i + 3]).wf() && all_tiles@[4 * i
                + 3].width == tiles@[i].height && all_tiles@[4 * i + 3].height == tiles@[i].width
                && all_tiles@[4 * i + 3].pixels@ == rot270_seq(
                tiles@[i].pixels@,
                tiles@[i].width as int,
                tiles@[i].height as int,
            ),
{
    let mut all_tiles: Vec<Tile> = Vec::new();
    let n = tiles.len();
    let mut i: usize = 0;
    while i < n
        invariant
            i <= n,
            n == tiles@.len(),
            n * 4 <= 0x10000,
            forall|i0: int| 0 <= i0 < n ==> (#[trigger] tiles@[i0]).wf(),
            all_tiles@.len() == i * 4,
            forall|i0: int|
                0 <= i0 < i ==> (#[trigger] all_tiles@[4 * i0]).wf() && same_image(
                    all_tiles@[4 * i0],
                    tiles@[i0],
                ),
            forall|i0: int|
                0 <= i0 < i ==> (#[trigger] all_tiles@[4 * i0 + 1]).wf() && all_tiles@[4 * i0
                    + 1].width == tiles@[i0].height && all_tiles@[4 * i0 + 1].height
                    == tiles@[i0].width && all_tiles@[4 * i0 + 1].pixels@ == rot90_seq(
                    tiles@[i0].pixels@,
                    tiles@[i0].width as int,
                    tiles@[i0].height as int,
                ),
            forall|i0: int|
                0 <= i0 < i ==> (#[trigger] all_tiles@[4 * i0 + 2]).wf() && all_tiles@[4 * i0
                    + 2].width == tiles@[i0].width && all_tiles@[4 * i0 + 2].height
                    == tiles@[i0].height && all_tiles@[4 * i0 + 2].pixels@ == rot180_seq(
                    tiles@[i0].pixels@,
                    tiles@[i0].width as int,
                    tiles@[i0].height as int,
                ),
            forall|i0: int|
                0 <= i0 < i ==> (#[trigger] all_tiles@[4 * i0 + 3]).wf() && all_tiles@[4 * i0
                    + 3].width == tiles@[i0].height && all_tiles@[4 * i0 + 3].height
                    == tiles@[i0].width && all_tiles@[4 * i0 + 3].pixels@ == rot270_seq(
                    tiles@[i0].pixels@,
                    tiles@[i0].width as int,
                    tiles@[i0].height as int,
                ),
        decreases n - i,
    {
        let tile = &tiles[i];
        let r0 = tile.duplicate();
        let r1 = rotate90(tile);
        let r2 = rotate180(tile);
        let r3 = rotate270(tile);
        let ghost old_all = all_tiles@;
        all_tiles.push(r0);
        all_tiles.push(r1);
        all_tiles.push(r2);
        all_tiles.push(r3);
        proof {
            assert(all_tiles@.len() == i * 4 + 4);
            assert(all_tiles@[4 * (i as int)] == r0);
            assert(all_tiles@[4 * (i as int) + 1] == r1);
            assert(all_tiles@[4 * (i as int) + 2] == r2);
            assert(all_tiles@[4 * (i as int) + 3] == r3);
            assert(r0.wf() && r1.wf() && r2.wf() && r3.wf());
            assert forall|i0: int| 0 <= i0 < i implies #[trigger] all_tiles@[4 * i0] == old_all[4
                * i0] && all_tiles@[4 * i0 + 1] == old_all[4 * i0 + 1] && all_tiles@[4 * i0 + 2]
                == old_all[4 * i0 + 2] && all_tiles@[4 * i0 + 3] == old_all[4 * i0 + 3] by {
                assert(4 * i0 + 3 < old_all.len());
            }
        }
        i = i + 1;
    }
    all_tiles
}

/// The full layer-stack tile list: the bare back layer, then every
/// middle layer over the back in all four rotations, then each of those
/// with the front layer drawn over it.
pub fn get_tiles(img: &Tile, tile_size: u32) -> (all_tiles: Vec<Tile>)
    requires
        img.wf(),
        1 <= tile_size,
        10 * tile_size <= img.width,
        3 * tile_size <= img.height,
    ensures
        all_tiles@.len() == 113,
        forall|q: int|
            0 <= q < 113 ==> (#[trigger] all_tiles@[q]).wf() && all_tiles@[q].width == tile_size
                && all_tiles@[q].height == tile_size,
        all_tiles@[0].pixels@ == layer_rect(img.pixels@, img.width as int, tile_size as int, 21),
        forall|k: int|
            0 <= k < 14 ==> (#[trigger] all_tiles@[1 + 4 * k]).pixels@ == blended(
                layer_rect(img.pixels@, img.width as int, tile_size as int, 21),
                layer_rect(img.pixels@, img.width as int, tile_size as int, k),
                tile_size as int,
            ),
        forall|k: int|
            0 <= k < 14 ==> (#[trigger] all_tiles@[1 + 4 * k + 1]).pixels@ == rot90_seq(
                all_tiles@[1 + 4 * k].pixels@,
                tile_size as int,
                tile_size as int,
            ),
        forall|k: int|
            0 <= k < 14 ==> (#[trigger] all_tiles@[1 + 4 * k + 2]).pixels@ == rot180_seq(
                all_tiles@[1 + 4 * k].pixels@,
                tile_size as int,
                tile_size as int,
            ),
        forall|k: int|
            0 <= k < 14 ==> (#[trigger] all_tiles@[1 + 4 * k + 3]).pixels@ == rot270_seq(
                all_tiles@[1 + 4 * k].pixels@,
                tile_size as int,
                tile_size as int,
            ),
        forall|q: int|
            0 <= q < 56 ==> (#[trigger] all_tiles@[57 + q]).pixels@ == blended(
                all_tiles@[1 + q].pixels@,
                layer_rect(img.pixels@, img.width as int, tile_size as int, 20),
                tile_size as int,
            ),
{
    let front_layer_indexes: Vec<u8> = vec![20];
    let mut mid_layer_indexes: Vec<u8> = Vec::new();
    let mut k: u8 = 0;
    while k < 14
        invariant
            k <= 14,
            mid_layer_indexes@.len() == k,
            forall|q: int| 0 <= q < k ==> (#[trigger] mid_layer_indexes@[q]) == q,
        decreases 14 - k,
    {
        mid_layer_indexes.push(k);
        k = k + 1;
    }
    let back_layer_indexes: Vec<u8> = vec![21];

    let front_tiles = get_tiles_by_index(img, &front_layer_indexes, tile_size);
    let middle_tiles = get_tiles_by_index(img, &mid_layer_indexes, tile_size);
    let back_tiles = get_tiles_by_index(img, &back_layer_indexes, tile_size);

    let mut all_tiles: Vec<Tile> = Vec::new();
    all_tiles.push(back_tiles[0].duplicate());

    let back_middle_tiles = overlay_tiles(&back_tiles, &middle_tiles);
    proof {
        assert forall|q: int| 0 <= q < 14 implies (#[trigger] back_middle_tiles@[q]).wf()
            && back_middle_tiles@[q].width == tile_size && back_middle_tiles@[q].height
            == tile_size && back_middle_tiles@[q].pixels@ == blended(
            layer_rect(img.pixels@, img.width as int, tile_size as int, 21),
            layer_rect(img.pixels@, img.width as int, tile_size as int, q),
            tile_size as int,
        ) by {
            assert(back_middle_tiles@[0 * 14 + q] == back_middle_tiles@[q]);
        }
    }
    let mut back_middle_rot = get_rotated_permutations(&back_middle_tiles);
    proof {
        assert forall|q: int| 0 <= q < 56 implies (#[trigger] back_middle_rot@[q]).wf()
            && back_middle_rot@[q].width == tile_size && back_middle_rot@[q].height == tile_size
            by {
            let k0 = q / 4;
            let r0 = q % 4;
            assert(0 <= k0 < 14 && 0 <= r0 < 4 && q == 4 * k0 + r0) by (nonlinear_arith)
                requires
                    0 <= q < 56,
                    k0 == q / 4,
                    r0 == q % 4,
            ;
            if r0 == 0 {
                assert(back_middle_rot@[4 * k0] == back_middle_rot@[q]);
            } else if r0 == 1 {
                assert(back_middle_rot@[4 * k0 + 1] == back_middle_rot@[q]);
            } else if r0 == 2 {
                assert(back_middle_rot@[4 * k0 + 2] == back_middle_rot@[q]);
            } else {
                assert(back_middle_rot@[4 * k0 + 3] == back_middle_rot@[q]);
            }
        }
    }
    let mut back_middle_front_tiles = overlay_tiles(&back_middle_rot, &front_tiles);
    proof {
        assert forall|q: int| 0 <= q < 56 implies (#[trigger] back_middle_front_tiles@[q]).wf()
            && back_middle_front_tiles@[q].width == tile_size
            && back_middle_front_tiles@[q].height == tile_size
            && back_middle_front_tiles@[q].pixels@ == blended(
            back_middle_rot@[q].pixels@,
            layer_rect(img.pixels@, img.width as int, tile_size as int, 20),
            tile_size as int,
        ) by {
            assert(back_middle_front_tiles@[q * 1 + 0] == back_middle_front_tiles@[q]);
        }
    }
    let ghost first = all_tiles@[0];
    let ghost bmrv = back_middle_rot@;
    let ghost bmfv = back_middle_front_tiles@;
    all_tiles.append(&mut back_middle_rot);
    all_tiles.append(&mut back_middle_front_tiles);
    proof {
        assert(all_tiles@.len() == 113);
        assert forall|q: int| 0 <= q < 56 implies #[trigger] all_tiles@[1 + q] == bmrv[q]
            && #[trigger] all_tiles@[57 + q] == bmfv[q] by {
        }
        assert(all_tiles@[0] == first);
        assert forall|q: int| 0 <= q < 113 implies (#[trigger] all_tiles@[q]).wf()
            && all_tiles@[q].width == tile_size && all_tiles@[q].height == tile_size by {
            if 1 <= q < 57 {
                assert(all_tiles@[1 + (q - 1)] == bmrv[q - 1]);
            } else if 57 <= q {
                assert(all_tiles@[57 + (q - 57)] == bmfv[q - 57]);
            }
        }
        assert forall|k0: int| 0 <= k0 < 14 implies (#[trigger] all_tiles@[1 + 4 * k0]).pixels@
            == blended(
            layer_rect(img.pixels@, img.width as int, tile_size as int, 21),
            layer_rect(img.pixels@, img.width as int, tile_size as int, k0),
            tile_size as int,
        ) by {
            assert(all_tiles@[1 + (4 * k0)] == bmrv[4 * k0]);
            assert(same_image(bmrv[4 * k0], back_middle_tiles@[k0]));
        }
        assert forall|k0: int| 0 <= k0 < 14 implies (#[trigger] all_tiles@[1 + 4 * k0
            + 1]).pixels@ == rot90_seq(
            all_tiles@[1 + 4 * k0].pixels@,
            tile_size as int,
            tile_size as int,
        ) by {
            assert(all_tiles@[1 + (4 * k0)] == bmrv[4 * k0]);
            assert(all_tiles@[1 + (4 * k0 + 1)] == bmrv[4 * k0 + 1]);
            assert(same_image(bmrv[4 * k0], back_middle_tiles@[k0]));
        }
        assert forall|k0: int| 0 <= k0 < 14 implies (#[trigger] all_tiles@[1 + 4 * k0
            + 2]).pixels@ == rot180_seq(
            all_tiles@[1 + 4 * k0].pixels@,
            tile_size as int,
            tile_size as int,
        ) by {
            assert(all_tiles@[1 + (4 * k0)] == bmrv[4 * k0]);
            assert(all_tiles@[1 + (4 * k0 + 2)] == bmrv[4 * k0 + 2]);
            assert(same_image(bmrv[4 * k0], back_middle_tiles@[k0]));
        }
        assert forall|k0: int| 0 <= k0 < 14 implies (#[trigger] all_tiles@[1 + 4 * k0
            + 3]).pixels@ == rot270_seq(
            all_tiles@[1 + 4 * k0].pixels@,
            tile_size as int,
            tile_size as int,
        ) by {
            assert(all_tiles@[1 + (4 * k0)] == bmrv[4 * k0]);
            assert(all_tiles@[1 + (4 * k0 + 3)] == bmrv[4 * k0 + 3]);
            assert(same_image(bmrv[4 * k0], back_middle_tiles@[k0]));
        }
        assert forall|q: int| 0 <= q < 56 implies (#[trigger] all_tiles@[57 + q]).pixels@
            == blended(
            all_tiles@[1 + q].pixels@,
            layer_rect(img.pixels@, img.width as int, tile_size as int, 20),
            tile_size as int,
        ) by {
            assert(all_tiles@[57 + q] == bmfv[q]);
            assert(all_tiles@[1 + q] == bmrv[q]);
        }
    }
        all_tiles
}

/// Whether some kept tile already carries this content hash.
pub open spec fn seen_hash(kept: Seq<Tile>, h: u64) -> bool {
    exists|i: int| 0 <= i < kept.len() && hash_of((#[trigger] kept[i]).pixels@) == h
}

/// The first-seen representatives of `s` under the content hash, in
/// order: a buffer is kept exactly when no earlier buffer hashes alike.
pub open spec fn dedup_by_hash(s: Seq<Tile>, n: int) -> Seq<Tile>
    decreases n,
{
    if n <= 0 {
        Seq::empty()
    } else {
        let prev = dedup_by_hash(s, n - 1);
        if seen_hash(prev, hash_of(s[n - 1].pixels@)) {
            prev
        } else {
            prev.push(s[n - 1])
        }
    }
}

/// Keeps the first buffer of each content hash, dropping every later
/// buffer that hashes alike, in first-seen order.
pub fn distinct_image_buffers(buffers: Vec<Tile>) -> (unique_buffers: Vec<Tile>)
    ensures
        unique_buffers@.len() == dedup_by_hash(buffers@, buffers@.len() as int).len(),
        forall|k: int|
            0 <= k < unique_buffers@.len() ==> same_image(
                (#[trigger] unique_buffers@[k]),
                dedup_by_hash(buffers@, buffers@.len() as int)[k],
            ),
{
    let mut unique_buffers: Vec<Tile> = Vec::new();
    let mut seen_hashes: Vec<u64> = Vec::new();
    let n = buffers.len();
    let mut i: usize = 0;
    while i < n
        invariant
            i <= n,
            n == buffers@.len(),
            seen_hashes@.len() == unique_buffers@.len(),
            unique_buffers@.len() == dedup_by_hash(buffers@, i as int).len(),
            forall|k: int|
                0 <= k < unique_buffers@.len() ==> same_image(
                    (#[trigger] unique_buffers@[k]),
                    dedup_by_hash(buffers@, i as int)[k],
                ),
            forall|k: int|
                0 <= k < seen_hashes@.len() ==> (#[trigger] seen_hashes@[k]) == hash_of(
                    dedup_by_hash(buffers@, i as int)[k].pixels@,
                ),
        decreases n - i,
    {
        let ghost prev = dedup_by_hash(buffers@, i as int);
        let hash = calculate_hash(&buffers[i]);
        let mut found = false;
        let m = seen_hashes.len();
        let mut k: usize = 0;
        while k < m
            invariant
                k <= m,
                m == seen_hashes@.len(),
                seen_hashes@.len() == prev.len(),
                forall|k0: int|
                    0 <= k0 < seen_hashes@.len() ==> (#[trigger] seen_hashes@[k0]) == hash_of(
                        prev[k0].pixels@,
                    ),
                found <==> exists|k0: int|
                    0 <= k0 < k && hash_of((#[trigger] prev[k0]).pixels@) == hash,
            decreases m - k,
        {
            if seen_hashes[k] == hash {
                found = true;
            }
            k = k + 1;
        }
        proof {
            assert(found <==> seen_hash(prev, hash));
        }
        if !found {
            unique_buffers.push(buffers[i].duplicate());
            seen_hashes.push(hash);
        }
        proof {
            let next = dedup_by_hash(buffers@, i + 1);
            if seen_hash(prev, hash) {
                assert(next == prev);
            } else {
                assert(next == prev.push(buffers@[i as int]));
            }
        }
        i = i + 1;
    }
    unique_buffers
}

} // verus!

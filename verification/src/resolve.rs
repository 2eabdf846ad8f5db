use vstd::prelude::*;
use crate::hash::{calculate_hash, hash_of};
use crate::pairs::{back_seq, fits_bitmask, satisfies, source_ok, top_seq, Adjacency, ImagePair,
    COL_BACK, COL_TOP};
use crate::pixel::Px;
use crate::stamp::{overlay_seq, stamp_with_offset};
use crate::tile::{eq_tiles, same_image, Tile};

verus! {

/// Every held tile is named by at least one entry of the index table: the
/// distinct-tile list holds nothing the table does not use.
pub open spec fn table_onto(tiles: Seq<Tile>, table: Seq<usize>) -> bool {
    forall|i: usize| i < tiles.len() ==> #[trigger] table.contains(i)
}

/// Every pair's buffer is a well-formed tile-sized image.
pub open spec fn pairs_wf(ps: Seq<ImagePair>, t: u32) -> bool {
    forall|i: int|
        0 <= i < ps.len() ==> (#[trigger] ps[i]).buffer.wf() && ps[i].buffer.width == t
            && ps[i].buffer.height == t
}

/// A pair reduced to what resolution reads of it: its neighbour
/// constraint and its buffer's pixels.
pub open spec fn pair_data(ps: Seq<ImagePair>) -> Seq<(Seq<Adjacency>, Seq<Px>)> {
    ps.map_values(|p: ImagePair| (p.adjacent_tiles@, p.buffer.pixels@))
}

/// The composite after testing the first `n` pairs against `mask`: each
/// matching pair's buffer is alpha-composited over the running image in
/// generation order.
pub open spec fn resolve_after(
    base: Seq<Px>,
    t: int,
    pd: Seq<(Seq<Adjacency>, Seq<Px>)>,
    mask: u8,
    n: int,
) -> Seq<Px>
    decreases n,
{
    if n <= 0 {
        base
    } else {
        let prev = resolve_after(base, t, pd, mask, n - 1);
        if satisfies(mask, pd[n - 1].0) {
            overlay_seq(prev, t, pd[n - 1].1, t, t, 0, 0)
        } else {
            prev
        }
    }
}

/// The tile that the table assigns to bitmask 255 shows, at every fully
/// opaque pixel of the last matching pair's buffer, exactly that buffer's
/// pixel: nothing is drawn over the last composite.
pub open spec fn mask255_shine(
    tiles: Seq<Tile>,
    table: Seq<usize>,
    pd: Seq<(Seq<Adjacency>, Seq<Px>)>,
) -> bool {
    forall|k: int, j: int|
        #![trigger pd[k].1[j]]
        0 <= k < pd.len() && last_match(pd, 255u8, k, pd.len() as int) && 0 <= j < pd[k].1.len()
            && pd[k].1[j].a == 255 ==> tiles[table[255] as int].pixels@[j] == pd[k].1[j]
}

/// For every bitmask below `n` whose bit 0 is clear, the assigned tile
/// shows every fully opaque pixel of the top cap unchanged: the cap is
/// the last thing drawn whenever there is open space above.
pub open spec fn cap_shine(tiles: Seq<Tile>, table: Seq<usize>, caps: Seq<Px>, n: int) -> bool {
    forall|b: int, j: int|
        #![trigger table[b], caps[j]]
        0 <= b < n && b % 2 == 0 && 0 <= j < caps.len() && caps[j].a == 255 ==> tiles[table[b] as int].pixels@[j] == caps[j]
}

/// Pair `k` matches `mask` and no later pair among the first `n` does:
/// its buffer is the last thing composited before any top cap.
pub open spec fn last_match(
    pd: Seq<(Seq<Adjacency>, Seq<Px>)>,
    mask: u8,
    k: int,
    n: int,
) -> bool {
    satisfies(mask, pd[k].0) && forall|k2: int| k < k2 < n ==> !satisfies(mask, (#[trigger] pd[k2]).0)
}

/// The resolved tile for `mask`: the back swatch as the base, every
/// matching pair composited over it in generation order, and the top cap
/// composited last exactly when bit 0 of the mask is clear.
pub open spec fn resolve_seq(
    back: Seq<Px>,
    cap: Seq<Px>,
    t: int,
    pd: Seq<(Seq<Adjacency>, Seq<Px>)>,
    mask: u8,
) -> Seq<Px> {
    let core = resolve_after(back, t, pd, mask, pd.len() as int);
    if mask & 1 == 0 {
        overlay_seq(core, t, cap, t, t, 0, 0)
    } else {
        core
    }
}

/// Resolves one neighbour bitmask to its tile image.
pub fn resolve_tile(back: &Tile, cap: &Tile, image_pairs: &Vec<ImagePair>, mask: u8, tile_size:
    u32) -> (r: Tile)
    requires
        back.wf(),
        back.width == tile_size,
        back.height == tile_size,
        cap.wf(),
        cap.width == tile_size,
        cap.height == tile_size,
        pairs_wf(image_pairs@, tile_size),
    ensures
        r.wf(),
        r.width == tile_size,
        r.height == tile_size,
        r.pixels@ == resolve_seq(
            back.pixels@,
            cap.pixels@,
            tile_size as int,
            pair_data(image_pairs@),
            mask,
        ),
        mask & 1 == 0 ==> forall|i: int|
            0 <= i < cap.pixels@.len() && (#[trigger] cap.pixels@[i]).a == 255 ==> r.pixels@[i]
                == cap.pixels@[i],
        mask & 1 != 0 ==> forall|k: int, i: int|
            #![trigger pair_data(image_pairs@)[k].1[i]]
            0 <= k < image_pairs@.len() && last_match(
                pair_data(image_pairs@),
                mask,
                k,
                image_pairs@.len() as int,
            ) && 0 <= i < pair_data(image_pairs@)[k].1.len() && pair_data(
                image_pairs@,
            )[k].1[i].a == 255 ==> r.pixels@[i] == pair_data(image_pairs@)[k].1[i],
{
    let mut current_tile = back.duplicate();
    let n = image_pairs.len();
    let mut i: usize = 0;
    while i < n
        invariant
            i <= n,
            n == image_pairs@.len(),
            back.wf(),
            back.width == tile_size,
            back.height == tile_size,
            cap.wf(),
            cap.width == tile_size,
            cap.height == tile_size,
            pairs_wf(image_pairs@, tile_size),
            current_tile.wf(),
            current_tile.width == tile_size,
            current_tile.height == tile_size,
            current_tile.pixels@ == resolve_after(
                back.pixels@,
                tile_size as int,
                pair_data(image_pairs@),
                mask,
                i as int,
            ),
            forall|k: int, j: int|
                #![trigger pair_data(image_pairs@)[k].1[j]]
                0 <= k < i && last_match(pair_data(image_pairs@), mask, k, i as int) && 0 <= j
                    < pair_data(image_pairs@)[k].1.len() && pair_data(image_pairs@)[k].1[j].a
                    == 255 ==> current_tile.pixels@[j] == pair_data(image_pairs@)[k].1[j],
        decreases n - i,
    {
        let image_pair = &image_pairs[i];
        proof {
            assert(pair_data(image_pairs@)[i as int] == (
                image_pair.adjacent_tiles@,
                image_pair.buffer.pixels@,
            ));
        }
        let ghost pd = pair_data(image_pairs@);
        let ghost ti = tile_size as int;
        if fits_bitmask(mask, image_pair) {
            stamp_with_offset(&mut current_tile, &image_pair.buffer, 0, 0);
            proof {
                assert forall|k: int, j: int|
                    #![trigger pd[k].1[j]]
                    0 <= k < i + 1 && last_match(pd, mask, k, i + 1) && 0 <= j < pd[k].1.len()
                        && pd[k].1[j].a == 255 implies current_tile.pixels@[j] == pd[k].1[j] by {
                    if k == i as int {
                        let x = j % ti;
                        let y = j / ti;
                        crate::tile::lemma_grid_decomp(ti, x, y);
                        vstd::arithmetic::div_mod::lemma_fundamental_div_mod(j, ti);
                        vstd::arithmetic::div_mod::lemma_mod_bound(j, ti);
                        assert(0 <= x < ti && 0 <= y < ti && crate::tile::grid_idx(ti, x, y) == j)
                            by (nonlinear_arith)
                            requires
                                0 <= j < ti * ti,
                                j == ti * y + x,
                                0 <= x < ti,
                        ;
                        assert(crate::tile::pix_at(image_pair.buffer.pixels@, ti, x, y).a == 255);
                        assert(crate::tile::pix_at(current_tile.pixels@, ti, x, y)
                            == crate::tile::pix_at(image_pair.buffer.pixels@, ti, x, y));
                    } else {
                        if last_match(pd, mask, k, i + 1) {
                            assert(!satisfies(mask, (pd[i as int]).0));
                            assert(false);
                        }
                    }
                }
            }
        } else {
            proof {
                assert forall|k: int, j: int|
                    #![trigger pd[k].1[j]]
                    0 <= k < i + 1 && last_match(pd, mask, k, i + 1) && 0 <= j < pd[k].1.len()
                        && pd[k].1[j].a == 255 implies current_tile.pixels@[j] == pd[k].1[j] by {
                    if k == i as int {
                        assert(!satisfies(mask, pd[k].0));
                    } else {
                        assert(forall|k2: int| k < k2 < i ==> !satisfies(mask, (#[trigger] pd[k2]).0));
                        assert(last_match(pd, mask, k, i as int));
                    }
                }
            }
        }
        i = i + 1;
    }
    if mask & 1 == 0 {
        let ghost pre_cap = current_tile.pixels@;
        stamp_with_offset(&mut current_tile, cap, 0, 0);
        proof {
            let ti = tile_size as int;
            assert forall|j: int| 0 <= j < cap.pixels@.len() && (#[trigger] cap.pixels@[j]).a
                == 255 implies current_tile.pixels@[j] == cap.pixels@[j] by {
                let x = j % ti;
                let y = j / ti;
                crate::tile::lemma_grid_decomp(ti, x, y);
                vstd::arithmetic::div_mod::lemma_fundamental_div_mod(j, ti);
                vstd::arithmetic::div_mod::lemma_mod_bound(j, ti);
                assert(0 <= x < ti && 0 <= y < ti && crate::tile::grid_idx(ti, x, y) == j)
                    by (nonlinear_arith)
                    requires
                        0 <= j < ti * ti,
                        j == ti * y + x,
                        0 <= x < ti,
                ;
                assert(crate::tile::pix_at(cap.pixels@, ti, x, y).a == 255);
                assert(crate::tile::pix_at(current_tile.pixels@, ti, x, y) == crate::tile::pix_at(
                    cap.pixels@,
                    ti,
                    x,
                    y,
                ));
            }
        }
    }
    current_tile
}

/// The growing set of distinct resolved tiles, with the content hash of
/// each: the owned state the deduplication loop threads through.
pub struct Deduplicator {
    pub tiles: Vec<Tile>,
    pub hashes: Vec<u64>,
}

impl Deduplicator {
    /// Every held tile is well formed and tile-sized, the hash list mirrors
    /// the tile list, and no two held tiles are drawn alike.
    pub open spec fn wf(self, t: u32) -> bool {
        &&& self.hashes@.len() == self.tiles@.len()
        &&& forall|i: int|
            0 <= i < self.tiles@.len() ==> (#[trigger] self.tiles@[i]).wf() && self.tiles@[i].width
                == t && self.tiles@[i].height == t
        &&& forall|i: int|
            0 <= i < self.tiles@.len() ==> self.hashes@[i] == hash_of(
                (#[trigger] self.tiles@[i]).pixels@,
            )
        &&& forall|i: int, j: int|
            0 <= i < j < self.tiles@.len() ==> !same_image(self.tiles@[i], self.tiles@[j])
    }

    /// An empty deduplicator.
    pub fn new() -> (d: Deduplicator)
        ensures
            d.tiles@.len() == 0,
            d.hashes@.len() == 0,
    {
        Deduplicator { tiles: Vec::new(), hashes: Vec::new() }
    }

    /// Hands out the atlas slot of `tile`: the slot of the tile already
    /// held that is drawn alike, or a fresh slot at the end of the list
    /// when no held tile is. The content hash is consulted first and a
    /// full pixel comparison confirms every hash match.
    pub fn intern(&mut self, tile: Tile, t: u32) -> (slot: usize)
        requires
            old(self).wf(t),
            tile.wf(),
            tile.width == t,
            tile.height == t,
        ensures
            final(self).wf(t),
            slot < final(self).tiles@.len(),
            same_image(final(self).tiles@[slot as int], tile),
            forall|j: int|
                0 <= j < old(self).tiles@.len() ==> final(self).tiles@[j] == old(self).tiles@[j],
            (exists|j: int|
                0 <= j < old(self).tiles@.len() && same_image(old(self).tiles@[j], tile))
                ==> final(self).tiles@ == old(self).tiles@,
            !(exists|j: int|
                0 <= j < old(self).tiles@.len() && same_image(old(self).tiles@[j], tile))
                ==> final(self).tiles@ == old(self).tiles@.push(tile) && slot == old(
                self,
            ).tiles@.len(),
    {
        let h = calculate_hash(&tile);
        let n = self.tiles.len();
        let mut i: usize = 0;
        while i < n
            invariant
                i <= n,
                n == self.tiles@.len(),
                self.wf(t),
                tile.wf(),
                tile.width == t,
                tile.height == t,
                h == hash_of(tile.pixels@),
                forall|j: int| 0 <= j < i ==> !same_image(self.tiles@[j], tile),
            decreases n - i,
        {
            if self.hashes[i] == h {
                if eq_tiles(&self.tiles[i], &tile) {
                    return i;
                }
            } else {
                proof {
                    if same_image(self.tiles@[i as int], tile) {
                        assert(self.tiles@[i as int].pixels@ == tile.pixels@);
                        assert(false);
                    }
                }
            }
            i = i + 1;
        }
        self.tiles.push(tile);
        self.hashes.push(h);
        n
    }
}

/// Resolves all 256 neighbour bitmasks against the generated pairs,
/// deduplicates the results by content, and hands back the distinct tiles
/// together with the 256-entry bitmask-to-slot index table.
pub fn generate_tiles_from_image_pairs(img: &Tile, image_pairs: &Vec<ImagePair>, tile_size: u32)
    -> (out: (Vec<Tile>, Vec<usize>))
    requires
        source_ok(*img, tile_size),
        pairs_wf(image_pairs@, tile_size),
    ensures
        out.1@.len() == 256,
        out.0@.len() <= 256,
        forall|b: int| 0 <= b < 256 ==> (#[trigger] out.1@[b]) < out.0@.len(),
        forall|i: int|
            0 <= i < out.0@.len() ==> (#[trigger] out.0@[i]).wf() && out.0@[i].width == tile_size
                && out.0@[i].height == tile_size,
        forall|i: int, j: int| 0 <= i < j < out.0@.len() ==> !same_image(out.0@[i], out.0@[j]),
        table_onto(out.0@, out.1@),
        forall|b: int|
            0 <= b < 256 ==> out.0@[(#[trigger] out.1@[b]) as int].pixels@ == resolve_seq(
                back_seq(img.pixels@, img.width as int, tile_size as int),
                top_seq(img.pixels@, img.width as int, tile_size as int),
                tile_size as int,
                pair_data(image_pairs@),
                b as u8,
            ),
        mask255_shine(out.0@, out.1@, pair_data(image_pairs@)),
        cap_shine(out.0@, out.1@, top_seq(img.pixels@, img.width as int, tile_size as int), 256),
{
    let back = crate::pairs::copy_fragment(img, COL_BACK, tile_size, tile_size);
    let cap = crate::pairs::copy_fragment(img, COL_TOP, tile_size, tile_size);
    let mut dedup = Deduplicator::new();
    let mut atlas_indices: Vec<usize> = Vec::new();
    let ghost backs = back_seq(img.pixels@, img.width as int, tile_size as int);
    let ghost caps = top_seq(img.pixels@, img.width as int, tile_size as int);
    let ghost mut wit: Seq<int> = Seq::empty();
    let mut bitmask: usize = 0;
    while bitmask < 256
        invariant
            bitmask <= 256,
            source_ok(*img, tile_size),
            pairs_wf(image_pairs@, tile_size),
            back.wf(),
            back.width == tile_size,
            back.height == tile_size,
            back.pixels@ == backs,
            cap.wf(),
            cap.width == tile_size,
            cap.height == tile_size,
            cap.pixels@ == caps,
            dedup.wf(tile_size),
            dedup.tiles@.len() <= bitmask,
            atlas_indices@.len() == bitmask,
            forall|b: int| 0 <= b < bitmask ==> (#[trigger] atlas_indices@[b]) < dedup.tiles@.len(),
            forall|b: int|
                0 <= b < bitmask ==> dedup.tiles@[(#[trigger] atlas_indices@[b]) as int].pixels@
                    == resolve_seq(backs, caps, tile_size as int, pair_data(image_pairs@), b
                    as u8),
            wit.len() == dedup.tiles@.len(),
            forall|i: int|
                0 <= i < wit.len() ==> 0 <= (#[trigger] wit[i]) < bitmask && atlas_indices@[wit[i]]
                    == i,
            bitmask > 255 ==> mask255_shine(dedup.tiles@, atlas_indices@, pair_data(image_pairs@)),
            cap_shine(dedup.tiles@, atlas_indices@, caps, bitmask as int),
        decreases 256 - bitmask,
    {
        let ghost old_tiles = dedup.tiles@;
        let ghost old_table = atlas_indices@;
        let current_tile = resolve_tile(&back, &cap, image_pairs, bitmask as u8, tile_size);
        let ghost ct = current_tile.pixels@;
        proof {
            assert(255u8 & 1 == 1) by (bit_vector);
        }
        let slot = dedup.intern(current_tile, tile_size);
        atlas_indices.push(slot);
        proof {
            assert(bitmask % 2 == 0 <==> (bitmask as u8) & 1 == 0) by (bit_vector)
                requires
                    bitmask < 256,
            ;
            assert forall|b: int, j: int|
                #![trigger atlas_indices@[b], caps[j]]
                0 <= b < bitmask + 1 && b % 2 == 0 && 0 <= j < caps.len() && caps[j].a == 255
                implies dedup.tiles@[atlas_indices@[b] as int].pixels@[j] == caps[j] by {
                if b == bitmask as int {
                    assert(atlas_indices@[b] == slot);
                    assert(dedup.tiles@[slot as int].pixels@ == ct);
                    assert(ct[j] == caps[j]);
                } else {
                    assert(atlas_indices@[b] == old_table[b]);
                    assert(dedup.tiles@[old_table[b] as int] == old_tiles[old_table[b] as int]);
                }
            }
            assert(cap_shine(dedup.tiles@, atlas_indices@, caps, bitmask + 1));
            if bitmask == 255 {
                assert(atlas_indices@[255] == slot);
                assert(dedup.tiles@[slot as int].pixels@ == ct);
                assert(pair_data(image_pairs@).len() == image_pairs@.len());
                assert forall|k: int, j: int|
                    #![trigger pair_data(image_pairs@)[k].1[j]]
                    0 <= k < pair_data(image_pairs@).len() && last_match(
                        pair_data(image_pairs@),
                        255u8,
                        k,
                        pair_data(image_pairs@).len() as int,
                    ) && 0 <= j < pair_data(image_pairs@)[k].1.len() && pair_data(
                        image_pairs@,
                    )[k].1[j].a == 255 implies dedup.tiles@[atlas_indices@[255] as int].pixels@[j]
                    == pair_data(image_pairs@)[k].1[j] by {
                    assert(last_match(pair_data(image_pairs@), 255u8, k, image_pairs@.len() as int));
                    assert(ct[j] == pair_data(image_pairs@)[k].1[j]);
                }
                assert(mask255_shine(dedup.tiles@, atlas_indices@, pair_data(image_pairs@)));
            }
        }
        proof {
            if dedup.tiles@.len() > old_tiles.len() {
                wit = wit.push(bitmask as int);
            }
            assert forall|i: int| 0 <= i < wit.len() implies 0 <= (#[trigger] wit[i]) < bitmask
                + 1 && atlas_indices@[wit[i]] == i by {
                assert(atlas_indices@ == old_table.push(slot));
                if i < old_tiles.len() {
                    assert(atlas_indices@[wit[i]] == old_table[wit[i]]);
                } else {
                    assert(wit[i] == bitmask as int);
                    assert(slot == i);
                    assert(atlas_indices@[bitmask as int] == i);
                }
            }
        }
        bitmask = bitmask + 1;
    }
    proof {
        assert forall|i: usize| i < dedup.tiles@.len() implies #[trigger] atlas_indices@.contains(
            i,
        ) by {
            assert(0 <= wit[i as int] < 256 && atlas_indices@[wit[i as int]] == i);
        }
        assert(table_onto(dedup.tiles@, atlas_indices@));
        assert(mask255_shine(dedup.tiles@, atlas_indices@, pair_data(image_pairs@)));
    }
    (dedup.tiles, atlas_indices)
}

} // verus!

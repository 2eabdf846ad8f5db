use vstd::prelude::*;

pub mod atlas;
pub mod hash;
pub mod laws;
pub mod layers;
pub mod pairs;
pub mod pixel;
pub mod resolve;
pub mod stamp;
pub mod tile;

use crate::atlas::{cell_of, is_ceil_sqrt, pack_tiles};
use crate::pairs::{back_seq, generate_back_pair, generate_inner_corner_pairs, satisfies,
    generate_outer_corner_pairs, generate_side_corner_pairs, std_buffer, std_constraint,
    std_pair_data, top_seq};
use crate::pixel::{clear_px, Px};
use crate::resolve::{cap_shine, generate_tiles_from_image_pairs, last_match, mask255_shine,
    pair_data, pairs_wf, resolve_seq, table_onto};
use crate::tile::{pix_at, same_image, Tile};

verus! {

/// Why a run was refused before any output was produced: the tile size or
/// the source image is unusable.
#[derive(Clone, Copy, PartialEq, Eq, Structural, Debug)]
pub enum ConfigError {
    /// The tile size is not divisible by two.
    OddTileSize,
    /// The source image is too small to hold all five swatch columns.
    SourceTooSmall,
}

/// Everything one run produces: the packed atlas image, its grid side in
/// cells, the distinct tiles in slot order, and the 256-entry
/// bitmask-to-slot index table.
pub struct Atlas {
    pub image: Tile,
    pub side: usize,
    pub tiles: Vec<Tile>,
    pub atlas_indices: Vec<usize>,
}

/// The resolved tile image for one neighbour bitmask, as a function of the
/// source image and the tile size alone.
pub open spec fn resolved_mask(img: Seq<Px>, iw: int, t: int, mask: u8) -> Seq<Px> {
    resolve_seq(back_seq(img, iw, t), top_seq(img, iw, t), t, std_pair_data(img, iw, t), mask)
}

/// What a produced atlas promises, over the source image it was made
/// from: exactly 256 index entries, each naming a distinct tile that is
/// drawn exactly as its bitmask resolves, no two distinct tiles alike,
/// and the image a ceiling-square grid of the distinct tiles with
/// trailing cells transparent.
pub open spec fn atlas_ok(a: Atlas, img: Seq<Px>, iw: int, tile_size: u32) -> bool {
    let t = tile_size as int;
    &&& a.tiles@.len() <= 256
    &&& forall|i: int|
        0 <= i < a.tiles@.len() ==> (#[trigger] a.tiles@[i]).wf() && a.tiles@[i].width == tile_size
            && a.tiles@[i].height == tile_size
    &&& forall|i: int, j: int|
        0 <= i < j < a.tiles@.len() ==> !same_image(a.tiles@[i], a.tiles@[j])
    &&& a.atlas_indices@.len() == 256
    &&& forall|b: int| 0 <= b < 256 ==> (#[trigger] a.atlas_indices@[b]) < a.tiles@.len()
    &&& table_onto(a.tiles@, a.atlas_indices@)
    &&& forall|b: int|
        0 <= b < 256 ==> a.tiles@[(#[trigger] a.atlas_indices@[b]) as int].pixels@ == resolved_mask(
            img,
            iw,
            t,
            b as u8,
        )
    &&& is_ceil_sqrt(a.side as int, a.tiles@.len() as int)
    &&& a.image.wf()
    &&& a.image.width == a.side * tile_size
    &&& a.image.height == a.side * tile_size
    &&& forall|x: int, y: int|
        0 <= x < a.image.width && 0 <= y < a.image.height ==> pix_at(
            a.image.pixels@,
            a.image.width as int,
            x,
            y,
        ) == (if cell_of(x, y, t, a.side as int) < a.tiles@.len() {
            pix_at(a.tiles@[cell_of(x, y, t, a.side as int)].pixels@, t, x % t, y % t)
        } else {
            clear_px()
        })
}

/// Generates the complete autotile atlas from a source image laid out as
/// five swatch columns of one tile size: the top cap, the inner, side and
/// outer corner fragments, and the back fill. Refuses an odd tile size or
/// a source image too small for the five columns; otherwise every one of
/// the 256 neighbour bitmasks is resolved, deduplicated and packed.
pub fn generate(img: &Tile, tile_size: u32) -> (result: Result<Atlas, ConfigError>)
    requires
        img.wf(),
        1 <= tile_size <= 0x100,
    ensures
        result is Err <==> (tile_size % 2 != 0 || img.width < 5 * tile_size || img.height
            < tile_size),
        tile_size % 2 != 0 ==> (result matches Err(e) && e == ConfigError::OddTileSize),
        tile_size % 2 == 0 && (img.width < 5 * tile_size || img.height < tile_size) ==> (result
            matches Err(e) && e == ConfigError::SourceTooSmall),
        result matches Ok(a) ==> atlas_ok(a, img.pixels@, img.width as int, tile_size),
        result matches Ok(a) ==> ((forall|j: int|
            0 <= j < back_seq(img.pixels@, img.width as int, tile_size as int).len() ==> (
            #[trigger] back_seq(img.pixels@, img.width as int, tile_size as int)[j]).a == 255)
            ==> a.tiles@[a.atlas_indices@[255] as int].pixels@ == back_seq(
            img.pixels@,
            img.width as int,
            tile_size as int,
        )),
        result matches Ok(a) ==> cap_shine(
            a.tiles@,
            a.atlas_indices@,
            top_seq(img.pixels@, img.width as int, tile_size as int),
            256,
        ),
{
    if tile_size % 2 != 0 {
        return Err(ConfigError::OddTileSize);
    }
    if img.width < 5 * tile_size || img.height < tile_size {
        return Err(ConfigError::SourceTooSmall);
    }
    let mut image_pairs = generate_inner_corner_pairs(img, tile_size);
    let mut more_side = generate_side_corner_pairs(img, tile_size);
    let mut more_outer = generate_outer_corner_pairs(img, tile_size);
    image_pairs.append(&mut more_side);
    image_pairs.append(&mut more_outer);
    image_pairs.push(generate_back_pair(img, tile_size));
    let ghost iw = img.width as int;
    let ghost t = tile_size as int;
    proof {
        assert forall|k: int| 0 <= k < 17 implies pair_data(image_pairs@)[k] == std_pair_data(
            img.pixels@,
            iw,
            t,
        )[k] by {
            assert(image_pairs@[k].adjacent_tiles@ == std_constraint(k));
            assert(image_pairs@[k].buffer.pixels@ == std_buffer(img.pixels@, iw, t, k));
        }
        assert(pair_data(image_pairs@) =~= std_pair_data(img.pixels@, iw, t));
        assert(pairs_wf(image_pairs@, tile_size));
    }
    let (tiles, atlas_indices) = generate_tiles_from_image_pairs(img, &image_pairs, tile_size);
    proof {
        let backs = back_seq(img.pixels@, iw, t);
        if forall|j: int| 0 <= j < backs.len() ==> (#[trigger] backs[j]).a == 255 {
            crate::laws::lemma_back_pair_matches(img.pixels@, iw, t, 255u8);
            let pd = pair_data(image_pairs@);
            assert(pd == std_pair_data(img.pixels@, iw, t));
            assert(pd.len() == 17);
            assert(pd[16].0 == std_constraint(16));
            assert(satisfies(255u8, pd[16].0));
            assert(last_match(pd, 255u8, 16, 17));
            assert(pd[16].1 == back_seq(img.pixels@, iw, t));
            assert(mask255_shine(tiles@, atlas_indices@, pd));
            let slot = atlas_indices@[255] as int;
            assert forall|j: int| 0 <= j < backs.len() implies tiles@[slot].pixels@[j] == backs[j]
                by {
                assert(pd[16].1[j].a == 255);
            }
            assert(atlas_indices@[255] < tiles@.len());
            assert(tiles@[slot].wf() && tiles@[slot].width == tile_size && tiles@[slot].height
                == tile_size);
            assert(backs.len() == tile_size * tile_size);
            assert(tiles@[slot].pixels@.len() == tile_size * tile_size);
            assert(tiles@[slot].pixels@ =~= backs);
        }
    }
    let (image, side) = pack_tiles(&tiles, tile_size);
    Ok(Atlas { image, side, tiles, atlas_indices })
}

} // verus!

use autotile::generate;
use autotile::pixel::Px;
use autotile::tile::Tile;
use autotile::ConfigError;

fn px(r: u8, g: u8, b: u8, a: u8) -> Px {
    Px { r, g, b, a }
}

const CLEAR: Px = Px { r: 0, g: 0, b: 0, a: 0 };
const RED: Px = Px { r: 255, g: 0, b: 0, a: 255 };
const GREEN: Px = Px { r: 0, g: 255, b: 0, a: 255 };
const BLUE: Px = Px { r: 0, g: 0, b: 255, a: 255 };
const YELLOW: Px = Px { r: 255, g: 255, b: 0, a: 255 };
const GRAY: Px = Px { r: 128, g: 128, b: 128, a: 255 };

/// A synthetic source sheet of five swatch columns: a top-cap strip that is
/// red on its first row and transparent below, then solid green, blue,
/// yellow and gray columns.
fn make_source(t: u32) -> Tile {
    let w = 5 * t;
    let mut pixels = Vec::new();
    for y in 0..t {
        for x in 0..w {
            let col = x / t;
            let p = match col {
                0 => {
                    if y == 0 {
                        RED
                    } else {
                        CLEAR
                    }
                }
                1 => GREEN,
                2 => BLUE,
                3 => YELLOW,
                _ => GRAY,
            };
            pixels.push(p);
        }
    }
    Tile { width: w, height: t, pixels }
}

fn pixel_of(t: &Tile, x: u32, y: u32) -> Px {
    t.pixels[(y * t.width + x) as usize]
}

#[test]
fn odd_tile_size_is_refused() {
    let src = make_source(16);
    let r = generate(&src, 15);
    assert!(matches!(r, Err(ConfigError::OddTileSize)));
}

#[test]
fn small_source_is_refused() {
    let src = make_source(4);
    let r = generate(&src, 8);
    assert!(matches!(r, Err(ConfigError::SourceTooSmall)));
}

#[test]
fn table_has_256_valid_entries() {
    let src = make_source(4);
    let atlas = generate(&src, 4).unwrap();
    assert_eq!(atlas.atlas_indices.len(), 256);
    assert!(atlas.tiles.len() <= 256);
    for &slot in &atlas.atlas_indices {
        assert!(slot < atlas.tiles.len());
    }
}

#[test]
fn resolving_twice_is_deterministic() {
    let src = make_source(8);
    let a1 = generate(&src, 8).unwrap();
    let a2 = generate(&src, 8).unwrap();
    assert_eq!(a1.tiles.len(), a2.tiles.len());
    for b in 0..256usize {
        let t1 = &a1.tiles[a1.atlas_indices[b]];
        let t2 = &a2.tiles[a2.atlas_indices[b]];
        assert_eq!(t1.pixels, t2.pixels);
    }
}

#[test]
fn mask_255_is_the_bare_back_fragment() {
    let src = make_source(8);
    let atlas = generate(&src, 8).unwrap();
    let tile = &atlas.tiles[atlas.atlas_indices[255]];
    for y in 0..8 {
        for x in 0..8 {
            assert_eq!(pixel_of(tile, x, y), GRAY);
        }
    }
}

#[test]
fn top_cap_present_iff_bit0_clear() {
    let src = make_source(8);
    let atlas = generate(&src, 8).unwrap();
    for mask in 0..256usize {
        let tile = &atlas.tiles[atlas.atlas_indices[mask]];
        let top_left = pixel_of(tile, 0, 0);
        if mask & 1 == 0 {
            // No neighbour above: the cap strip is drawn over the top row.
            assert_eq!(top_left, RED, "mask {mask}");
        } else {
            // A neighbour above: nothing red is ever composited.
            for y in 0..8 {
                for x in 0..8 {
                    assert_ne!(pixel_of(tile, x, y), RED, "mask {mask}");
                }
            }
        }
    }
}

#[test]
fn masks_resolving_alike_share_a_slot() {
    let src = make_source(8);
    let atlas = generate(&src, 8).unwrap();
    // Masks 0 and 2 differ only in the north-east diagonal, which no pair
    // reads when the orthogonal neighbours are absent: identical tiles,
    // one shared slot.
    assert_eq!(atlas.atlas_indices[0], atlas.atlas_indices[2]);
    let t0 = &atlas.tiles[atlas.atlas_indices[0]];
    let t2 = &atlas.tiles[atlas.atlas_indices[2]];
    assert_eq!(t0.pixels, t2.pixels);
    // Mask 255 resolves to the bare back tile, unlike mask 0.
    assert_ne!(atlas.atlas_indices[0], atlas.atlas_indices[255]);
    let t255 = &atlas.tiles[atlas.atlas_indices[255]];
    assert_ne!(t0.pixels, t255.pixels);
}

#[test]
fn atlas_dimensions_are_the_ceiling_square() {
    let src = make_source(4);
    let atlas = generate(&src, 4).unwrap();
    let side = autotile::atlas::grid_side(atlas.tiles.len());
    assert!(side * side >= atlas.tiles.len());
    if side > 0 {
        assert!((side - 1) * (side - 1) < atlas.tiles.len());
    }
    assert_eq!(atlas.image.width as usize, side * 4);
    assert_eq!(atlas.image.height as usize, side * 4);
    assert_eq!(atlas.side, side);
    // Slot 0 sits at the atlas origin.
    assert_eq!(atlas.image.pixels[0], atlas.tiles[0].pixels[0]);
}

#[test]
fn mask_zero_shows_outer_corners_and_cap() {
    let src = make_source(16);
    let atlas = generate(&src, 16).unwrap();
    let tile = &atlas.tiles[atlas.atlas_indices[0]];
    // The top row is the cap strip.
    for x in 0..16 {
        assert_eq!(pixel_of(tile, x, 0), RED);
    }
    // Everything below it is outer-corner yellow: all four quadrants are
    // covered by an outer-corner stamp, and no inner (green) or side
    // (blue) decoration appears anywhere.
    for y in 1..16 {
        for x in 0..16 {
            let p = pixel_of(tile, x, y);
            assert_eq!(p, YELLOW, "({x},{y})");
        }
    }
}

#[test]
fn grid_side_formula() {
    assert_eq!(autotile::atlas::grid_side(0), 0);
    assert_eq!(autotile::atlas::grid_side(1), 1);
    assert_eq!(autotile::atlas::grid_side(2), 2);
    assert_eq!(autotile::atlas::grid_side(4), 2);
    assert_eq!(autotile::atlas::grid_side(5), 3);
    assert_eq!(autotile::atlas::grid_side(9), 3);
    assert_eq!(autotile::atlas::grid_side(10), 4);
    assert_eq!(autotile::atlas::grid_side(256), 16);
    assert_eq!(autotile::atlas::grid_side(257), 17);
}

#[test]
fn calculate_hash_is_fnv1a_over_rgba_bytes() {
    let t1 = Tile { width: 1, height: 1, pixels: vec![CLEAR] };
    assert_eq!(autotile::hash::calculate_hash(&t1), 0x4d25767f9dce13f5);
    let t2 = Tile { width: 1, height: 1, pixels: vec![px(1, 2, 3, 4)] };
    assert_eq!(autotile::hash::calculate_hash(&t2), 0xbe7a5e775165785d);
    // Same pixels, same hash, independent of how the tile was built.
    let t3 = Tile { width: 1, height: 1, pixels: vec![px(1, 2, 3, 4)] };
    assert_eq!(
        autotile::hash::calculate_hash(&t2),
        autotile::hash::calculate_hash(&t3)
    );
}

#[test]
fn back_pair_fits_only_mask_255() {
    let src = make_source(8);
    let pair = autotile::pairs::generate_back_pair(&src, 8);
    for mask in 0..=255u8 {
        assert_eq!(autotile::pairs::fits_bitmask(mask, &pair), mask == 255);
    }
}

#[test]
fn inner_corner_pair_matches_its_case() {
    let src = make_source(8);
    let pairs = autotile::pairs::generate_inner_corner_pairs(&src, 8);
    assert_eq!(pairs.len(), 4);
    // The top-left inner pair wants north and west present, north-west
    // absent: N is bit 0, W bit 6, NW bit 7.
    let tl = &pairs[0];
    assert!(autotile::pairs::fits_bitmask(0b0100_0001, tl));
    assert!(!autotile::pairs::fits_bitmask(0b1100_0001, tl));
    assert!(!autotile::pairs::fits_bitmask(0b0000_0001, tl));
    assert!(!autotile::pairs::fits_bitmask(0b0100_0000, tl));
}

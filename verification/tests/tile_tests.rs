use autotile::pixel::Px;
use autotile::stamp::{stamp_bottom_left, stamp_bottom_right, stamp_top_left, stamp_top_right};
use autotile::tile::{copy_pixels, eq_tiles, rotate180, rotate270, rotate90, Tile};

fn px(r: u8, g: u8, b: u8, a: u8) -> Px {
    Px { r, g, b, a }
}

const CLEAR: Px = Px { r: 0, g: 0, b: 0, a: 0 };
const RED: Px = Px { r: 255, g: 0, b: 0, a: 255 };
const BLUE: Px = Px { r: 0, g: 0, b: 255, a: 255 };

fn solid(w: u32, h: u32, p: Px) -> Tile {
    Tile { width: w, height: h, pixels: vec![p; (w * h) as usize] }
}

fn pixel_of(t: &Tile, x: u32, y: u32) -> Px {
    t.pixels[(y * t.width + x) as usize]
}

#[test]
fn blank_is_fully_transparent() {
    let t = Tile::blank(3, 2);
    assert_eq!(t.width, 3);
    assert_eq!(t.height, 2);
    assert_eq!(t.pixels, vec![CLEAR; 6]);
}

#[test]
fn copy_pixels_cuts_the_rectangle() {
    let mut pixels = Vec::new();
    for i in 0..12u8 {
        pixels.push(px(i, 0, 0, 255));
    }
    let src = Tile { width: 4, height: 3, pixels };
    let cut = copy_pixels(&src, 1, 1, 2, 2);
    assert_eq!(cut.width, 2);
    assert_eq!(cut.height, 2);
    assert_eq!(
        cut.pixels,
        vec![px(5, 0, 0, 255), px(6, 0, 0, 255), px(9, 0, 0, 255), px(10, 0, 0, 255)]
    );
}

#[test]
fn rotations_permute_pixels_clockwise() {
    let a = px(1, 0, 0, 255);
    let b = px(2, 0, 0, 255);
    let strip = Tile { width: 2, height: 1, pixels: vec![a, b] };
    let r90 = rotate90(&strip);
    assert_eq!((r90.width, r90.height), (1, 2));
    assert_eq!(r90.pixels, vec![a, b]);
    let r180 = rotate180(&strip);
    assert_eq!((r180.width, r180.height), (2, 1));
    assert_eq!(r180.pixels, vec![b, a]);
    let r270 = rotate270(&strip);
    assert_eq!((r270.width, r270.height), (1, 2));
    assert_eq!(r270.pixels, vec![b, a]);
}

#[test]
fn opaque_stamp_replaces_canvas_pixels() {
    // Through the public stamp functions this exercises the alpha-blend
    // wrapper: an opaque stamp must replace the canvas pixel, so a
    // wrapper that handed back the canvas pixel unchanged would fail.
    let canvas = solid(4, 4, BLUE);
    let stamp = solid(2, 2, RED);
    let out = stamp_top_left(canvas, &stamp);
    assert_eq!(pixel_of(&out, 0, 0), RED);
    assert_eq!(pixel_of(&out, 1, 1), RED);
    assert_eq!(pixel_of(&out, 2, 2), BLUE);
    assert_eq!(pixel_of(&out, 3, 0), BLUE);
}

#[test]
fn transparent_stamp_leaves_canvas_unchanged() {
    let canvas = solid(4, 4, BLUE);
    let stamp = solid(2, 2, CLEAR);
    let out = stamp_top_right(canvas, &stamp);
    for y in 0..4 {
        for x in 0..4 {
            assert_eq!(pixel_of(&out, x, y), BLUE);
        }
    }
}

#[test]
fn bottom_right_stamp_lands_at_half_tile() {
    // A half-tile stamp on a blank 16x16 canvas: its top-left pixel must
    // land exactly at canvas coordinate (8, 8).
    let canvas = Tile::blank(16, 16);
    let stamp = solid(8, 8, RED);
    let out = stamp_bottom_right(canvas, &stamp);
    assert_eq!(pixel_of(&out, 8, 8), RED);
    assert_eq!(pixel_of(&out, 15, 15), RED);
    assert_eq!(pixel_of(&out, 7, 8), CLEAR);
    assert_eq!(pixel_of(&out, 8, 7), CLEAR);
    assert_eq!(pixel_of(&out, 7, 7), CLEAR);
}

#[test]
fn each_corner_stamp_occupies_its_corner() {
    let stamp = solid(2, 2, RED);
    let tl = stamp_top_left(Tile::blank(4, 4), &stamp);
    let tr = stamp_top_right(Tile::blank(4, 4), &stamp);
    let bl = stamp_bottom_left(Tile::blank(4, 4), &stamp);
    let br = stamp_bottom_right(Tile::blank(4, 4), &stamp);
    assert_eq!(pixel_of(&tl, 0, 0), RED);
    assert_eq!(pixel_of(&tl, 3, 3), CLEAR);
    assert_eq!(pixel_of(&tr, 3, 0), RED);
    assert_eq!(pixel_of(&tr, 0, 3), CLEAR);
    assert_eq!(pixel_of(&bl, 0, 3), RED);
    assert_eq!(pixel_of(&bl, 3, 0), CLEAR);
    assert_eq!(pixel_of(&br, 3, 3), RED);
    assert_eq!(pixel_of(&br, 0, 0), CLEAR);
}

#[test]
fn eq_tiles_compares_content() {
    let a = solid(2, 2, RED);
    let b = solid(2, 2, RED);
    let c = solid(2, 2, BLUE);
    let d = solid(4, 1, RED);
    assert!(eq_tiles(&a, &b));
    assert!(!eq_tiles(&a, &c));
    assert!(!eq_tiles(&a, &d));
}

#[test]
fn distinct_buffers_keeps_first_of_each() {
    let a = solid(2, 2, RED);
    let b = solid(2, 2, BLUE);
    let a2 = solid(2, 2, RED);
    let out = autotile::layers::distinct_image_buffers(vec![a, b, a2]);
    assert_eq!(out.len(), 2);
    assert_eq!(out[0].pixels, vec![RED; 4]);
    assert_eq!(out[1].pixels, vec![BLUE; 4]);
}

#[test]
fn overlay_tiles_builds_every_combination() {
    let backs = vec![solid(2, 2, RED), solid(2, 2, BLUE)];
    let fronts = vec![solid(2, 2, CLEAR), solid(2, 2, RED)];
    let out = autotile::layers::overlay_tiles(&backs, &fronts);
    assert_eq!(out.len(), 4);
    assert_eq!(out[0].pixels, vec![RED; 4]);
    assert_eq!(out[1].pixels, vec![RED; 4]);
    assert_eq!(out[2].pixels, vec![BLUE; 4]);
    assert_eq!(out[3].pixels, vec![RED; 4]);
}

#[test]
fn rotated_permutations_come_in_fours() {
    let a = px(1, 0, 0, 255);
    let b = px(2, 0, 0, 255);
    let strip = Tile { width: 2, height: 1, pixels: vec![a, b] };
    let out = autotile::layers::get_rotated_permutations(&vec![strip]);
    assert_eq!(out.len(), 4);
    assert_eq!(out[0].pixels, vec![a, b]);
    assert_eq!(out[1].pixels, vec![a, b]);
    assert_eq!((out[1].width, out[1].height), (1, 2));
    assert_eq!(out[2].pixels, vec![b, a]);
    assert_eq!(out[3].pixels, vec![b, a]);
}

#[test]
fn layer_stack_produces_113_tiles() {
    // A 10x3 grid of 4-pixel cells, each cell a distinct solid colour.
    let t: u32 = 4;
    let mut pixels = Vec::new();
    for y in 0..3 * t {
        for x in 0..10 * t {
            let cell = (y / t) * 10 + x / t;
            pixels.push(px(cell as u8, 7, 7, 255));
        }
    }
    let sheet = Tile { width: 10 * t, height: 3 * t, pixels };
    let out = autotile::layers::get_tiles(&sheet, t);
    assert_eq!(out.len(), 113);
    // The first output is the back layer, swatch 21.
    assert_eq!(pixel_of(&out[0], 0, 0), px(21, 7, 7, 255));
    // The next block holds each middle layer over the back; the middle
    // layers are opaque, so each shows its own colour.
    assert_eq!(pixel_of(&out[1], 0, 0), px(0, 7, 7, 255));
    assert_eq!(pixel_of(&out[5], 0, 0), px(1, 7, 7, 255));
    // The final block draws the opaque front layer, swatch 20, over all.
    assert_eq!(pixel_of(&out[57], 0, 0), px(20, 7, 7, 255));
    assert_eq!(pixel_of(&out[112], 0, 0), px(20, 7, 7, 255));
}

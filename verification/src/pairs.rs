use vstd::prelude::*;
use crate::pixel::Px;
use crate::stamp::{overlay_seq, stamp_bottom_left, stamp_bottom_right, stamp_top_left,
    stamp_top_right};
use crate::tile::{blank_seq, rect_seq, rot180_seq, rot270_seq, rot90_seq, rotate180, rotate270,
    rotate90, Tile, MAX_DIM};

verus! {

/// What a decoration demands of one neighbouring cell: it must be
/// occupied, it must be empty, or it does not matter.
#[derive(Clone, Copy, PartialEq, Eq, Structural, Debug)]
pub enum Adjacency {
    Present,
    Absent,
    Unconstrained,
}

/// One candidate decoration: a tile-sized buffer bound to the demands it
/// places on the eight neighbouring cells. Slot `i` of `adjacent_tiles`
/// corresponds to bit `i` of a neighbour bitmask; slot 0 is the cell
/// directly above, and the slots continue clockwise around the compass.
pub struct ImagePair {
    pub buffer: Tile,
    pub adjacent_tiles: [Adjacency; 8],
}

/// Column, in tile-size units, of each swatch in the source image.
pub const COL_TOP: u32 = 0;

pub const COL_INNER: u32 = 1;

pub const COL_SIDE: u32 = 2;

pub const COL_OUTER: u32 = 3;

pub const COL_BACK: u32 = 4;

/// Whether bit `i` of the neighbour bitmask is set, that is, whether the
/// neighbour in direction `i` is occupied.
pub open spec fn bit_set(mask: u8, i: u8) -> bool {
    (mask >> i) & 1 == 1
}

/// Whether the demand `c` on the neighbour in direction `i` holds under
/// the bitmask `mask`.
pub open spec fn adjacency_ok(mask: u8, c: Adjacency, i: u8) -> bool {
    match c {
        Adjacency::Present => bit_set(mask, i),
        Adjacency::Absent => !bit_set(mask, i),
        Adjacency::Unconstrained => true,
    }
}

/// Whether a bitmask satisfies a whole neighbour constraint: every
/// constrained direction agrees with the corresponding bit.
pub open spec fn satisfies(mask: u8, c: Seq<Adjacency>) -> bool {
    forall|i: int| 0 <= i < c.len() ==> adjacency_ok(mask, c[i], i as u8)
}

/// Whether the bitmask satisfies the pair's neighbour constraint, bit `i`
/// of the mask against slot `i` of the constraint.
pub fn fits_bitmask(bitmask: u8, image_pair: &ImagePair) -> (r: bool)
    ensures
        r == satisfies(bitmask, image_pair.adjacent_tiles@),
{
    let mut current_shift: usize = 0;
    while current_shift < 8
        invariant
            current_shift <= 8,
            forall|i: int|
                0 <= i < current_shift ==> adjacency_ok(
                    bitmask,
                    image_pair.adjacent_tiles@[i],
                    i as u8,
                ),
        decreases 8 - current_shift,
    {
        let sh: u8 = current_shift as u8;
        let occupied = (bitmask >> sh) & 1 == 1;
        match image_pair.adjacent_tiles[current_shift] {
            Adjacency::Present => {
                if !occupied {
                    assert(!adjacency_ok(bitmask, image_pair.adjacent_tiles@[current_shift as int],
                    sh));
                    return false;
                }
            },
            Adjacency::Absent => {
                if occupied {
                    assert(!adjacency_ok(bitmask, image_pair.adjacent_tiles@[current_shift as int],
                    sh));
                    return false;
                }
            },
            Adjacency::Unconstrained => {},
        }
        current_shift = current_shift + 1;
    }
    true
}

/// The `t/2` x `t/2` corner fragment cut from column `col` of the source
/// image, or the full `t` x `t` swatch when `fw == fh == t`.
pub open spec fn frag_seq(img: Seq<Px>, iw: int, col: int, t: int, fw: int, fh: int) -> Seq<Px> {
    rect_seq(img, iw, col * t, 0, fw, fh)
}

/// A fragment of shape `fw` x `fh` stamped onto a fresh transparent
/// `t` x `t` canvas with its top-left corner at `(ox, oy)`.
pub open spec fn stamped_seq(frag: Seq<Px>, fw: int, fh: int, t: int, ox: int, oy: int) -> Seq<
    Px,
> {
    overlay_seq(blank_seq(t * t), t, frag, fw, fh, ox, oy)
}

/// The neighbour constraint of the `k`-th inner-corner pair.
pub open spec fn inner_constraint(k: int) -> Seq<Adjacency> {
    if k == 0 {
        seq![Adjacency::Present, Adjacency::Unconstrained, Adjacency::Unconstrained,
            Adjacency::Unconstrained, Adjacency::Unconstrained, Adjacency::Unconstrained,
            Adjacency::Present, Adjacency::Absent]
    } else if k == 1 {
        seq![Adjacency::Present, Adjacency::Absent, Adjacency::Present,
            Adjacency::Unconstrained, Adjacency::Unconstrained, Adjacency::Unconstrained,
            Adjacency::Unconstrained, Adjacency::Unconstrained]
    } else if k == 2 {
        seq![Adjacency::Unconstrained, Adjacency::Unconstrained, Adjacency::Present,
            Adjacency::Absent, Adjacency::Present, Adjacency::Unconstrained,
            Adjacency::Unconstrained, Adjacency::Unconstrained]
    } else {
        seq![Adjacency::Unconstrained, Adjacency::Unconstrained, Adjacency::Unconstrained,
            Adjacency::Unconstrained, Adjacency::Present, Adjacency::Absent,
            Adjacency::Present, Adjacency::Unconstrained]
    }
}

/// The pixels of the `k`-th inner-corner pair's buffer: the inner-corner
/// fragment, turned to face corner `k`, stamped onto that corner of a
/// blank canvas.
pub open spec fn inner_buffer(img: Seq<Px>, iw: int, t: int, k: int) -> Seq<Px> {
    let h = t / 2;
    let f = frag_seq(img, iw, COL_INNER as int, t, h, h);
    if k == 0 {
        stamped_seq(f, h, h, t, 0, 0)
    } else if k == 1 {
        stamped_seq(rot90_seq(f, h, h), h, h, t, t - h, 0)
    } else if k == 2 {
        stamped_seq(rot180_seq(f, h, h), h, h, t, t - h, t - h)
    } else {
        stamped_seq(rot270_seq(f, h, h), h, h, t, 0, t - h)
    }
}

/// The requirements every pair generator places on its inputs: a well
/// formed source image holding all five swatch columns of an even tile
/// size.
pub open spec fn source_ok(img: Tile, t: u32) -> bool {
    &&& img.wf()
    &&& t % 2 == 0
    &&& 5 * t <= img.width
    &&& t <= img.height
}

/// The four inner-corner pairs: a concave decoration for each corner,
/// demanding both orthogonal neighbours present and the diagonal between
/// them absent.
pub fn generate_inner_corner_pairs(img: &Tile, tile_size: u32) -> (pairs: Vec<ImagePair>)
    requires
        source_ok(*img, tile_size),
    ensures
        pairs@.len() == 4,
        forall|k: int|
            0 <= k < 4 ==> (#[trigger] pairs@[k]).adjacent_tiles@ =~= inner_constraint(k),
        forall|k: int|
            0 <= k < 4 ==> (#[trigger] pairs@[k]).buffer.wf() && pairs@[k].buffer.width
                == tile_size && pairs@[k].buffer.height == tile_size,
        forall|k: int|
            0 <= k < 4 ==> (#[trigger] pairs@[k]).buffer.pixels@ == inner_buffer(
                img.pixels@,
                img.width as int,
                tile_size as int,
                k,
            ),
{
    let t2 = tile_size / 2;
    let inner_corner = copy_fragment(img, COL_INNER, tile_size, t2);
    let r90 = rotate90(&inner_corner);
    let r180 = rotate180(&inner_corner);
    let r270 = rotate270(&inner_corner);
    let mut pairs: Vec<ImagePair> = Vec::new();
    pairs.push(
        ImagePair {
            buffer: stamp_top_left(Tile::blank(tile_size, tile_size), &inner_corner),
            adjacent_tiles: [Adjacency::Present, Adjacency::Unconstrained,
                Adjacency::Unconstrained, Adjacency::Unconstrained, Adjacency::Unconstrained,
                Adjacency::Unconstrained, Adjacency::Present, Adjacency::Absent],
        },
    );
    pairs.push(
        ImagePair {
            buffer: stamp_top_right(Tile::blank(tile_size, tile_size), &r90),
            adjacent_tiles: [Adjacency::Present, Adjacency::Absent, Adjacency::Present,
                Adjacency::Unconstrained, Adjacency::Unconstrained, Adjacency::Unconstrained,
                Adjacency::Unconstrained, Adjacency::Unconstrained],
        },
    );
    pairs.push(
        ImagePair {
            buffer: stamp_bottom_right(Tile::blank(tile_size, tile_size), &r180),
            adjacent_tiles: [Adjacency::Unconstrained, Adjacency::Unconstrained,
                Adjacency::Present, Adjacency::Absent, Adjacency::Present,
                Adjacency::Unconstrained, Adjacency::Unconstrained, Adjacency::Unconstrained],
        },
    );
    pairs.push(
        ImagePair {
            buffer: stamp_bottom_left(Tile::blank(tile_size, tile_size), &r270),
            adjacent_tiles: [Adjacency::Unconstrained, Adjacency::Unconstrained,
                Adjacency::Unconstrained, Adjacency::Unconstrained, Adjacency::Present,
                Adjacency::Absent, Adjacency::Present, Adjacency::Unconstrained],
        },
    );
    pairs
}

/// The neighbour constraint of the `k`-th side-corner pair.
pub open spec fn side_constraint(k: int) -> Seq<Adjacency> {
    if k == 0 {
        seq![Adjacency::Present, Adjacency::Unconstrained, Adjacency::Unconstrained,
            Adjacency::Unconstrained, Adjacency::Unconstrained, Adjacency::Unconstrained,
            Adjacency::Absent, Adjacency::Unconstrained]
    } else if k == 1 {
        seq![Adjacency::Absent, Adjacency::Unconstrained, Adjacency::Unconstrained,
            Adjacency::Unconstrained, Adjacency::Unconstrained, Adjacency::Unconstrained,
            Adjacency::Present, Adjacency::Unconstrained]
    } else if k == 2 {
        seq![Adjacency::Absent, Adjacency::Unconstrained, Adjacency::Present,
            Adjacency::Unconstrained, Adjacency::Unconstrained, Adjacency::Unconstrained,
            Adjacency::Unconstrained, Adjacency::Unconstrained]
    } else if k == 3 {
        seq![Adjacency::Present, Adjacency::Unconstrained, Adjacency::Absent,
            Adjacency::Unconstrained, Adjacency::Unconstrained, Adjacency::Unconstrained,
            Adjacency::Unconstrained, Adjacency::Unconstrained]
    } else if k == 4 {
        seq![Adjacency::Unconstrained, Adjacency::Unconstrained, Adjacency::Absent,
            Adjacency::Unconstrained, Adjacency::Present, Adjacency::Unconstrained,
            Adjacency::Unconstrained, Adjacency::Unconstrained]
    } else if k == 5 {
        seq![Adjacency::Unconstrained, Adjacency::Unconstrained, Adjacency::Present,
            Adjacency::Unconstrained, Adjacency::Absent, Adjacency::Unconstrained,
            Adjacency::Unconstrained, Adjacency::Unconstrained]
    } else if k == 6 {
        seq![Adjacency::Unconstrained, Adjacency::Unconstrained, Adjacency::Unconstrained,
            Adjacency::Unconstrained, Adjacency::Absent, Adjacency::Unconstrained,
            Adjacency::Present, Adjacency::Unconstrained]
    } else {
        seq![Adjacency::Unconstrained, Adjacency::Unconstrained, Adjacency::Unconstrained,
            Adjacency::Unconstrained, Adjacency::Present, Adjacency::Unconstrained,
            Adjacency::Absent, Adjacency::Unconstrained]
    }
}

/// The pixels of the `k`-th side-corner pair's buffer.
pub open spec fn side_buffer(img: Seq<Px>, iw: int, t: int, k: int) -> Seq<Px> {
    let h = t / 2;
    let f = frag_seq(img, iw, COL_SIDE as int, t, h, h);
    if k == 0 {
        stamped_seq(f, h, h, t, 0, 0)
    } else if k == 1 {
        stamped_seq(rot90_seq(f, h, h), h, h, t, 0, 0)
    } else if k == 2 {
        stamped_seq(rot90_seq(f, h, h), h, h, t, t - h, 0)
    } else if k == 3 {
        stamped_seq(rot180_seq(f, h, h), h, h, t, t - h, 0)
    } else if k == 4 {
        stamped_seq(rot180_seq(f, h, h), h, h, t, t - h, t - h)
    } else if k == 5 {
        stamped_seq(rot270_seq(f, h, h), h, h, t, t - h, t - h)
    } else if k == 6 {
        stamped_seq(rot270_seq(f, h, h), h, h, t, 0, t - h)
    } else {
        stamped_seq(f, h, h, t, 0, t - h)
    }
}

/// The eight side-corner pairs: a convex transition for each corner in
/// each of its two orientations, each demanding one orthogonal neighbour
/// present and the adjacent orthogonal neighbour absent.
pub fn generate_side_corner_pairs(img: &Tile, tile_size: u32) -> (pairs: Vec<ImagePair>)
    requires
        source_ok(*img, tile_size),
    ensures
        pairs@.len() == 8,
        forall|k: int|
            0 <= k < 8 ==> (#[trigger] pairs@[k]).adjacent_tiles@ =~= side_constraint(k),
        forall|k: int|
            0 <= k < 8 ==> (#[trigger] pairs@[k]).buffer.wf() && pairs@[k].buffer.width
                == tile_size && pairs@[k].buffer.height == tile_size,
        forall|k: int|
            0 <= k < 8 ==> (#[trigger] pairs@[k]).buffer.pixels@ == side_buffer(
                img.pixels@,
                img.width as int,
                tile_size as int,
                k,
            ),
{
    let t2 = tile_size / 2;
    let side_corner = copy_fragment(img, COL_SIDE, tile_size, t2);
    let r90 = rotate90(&side_corner);
    let r180 = rotate180(&side_corner);
    let r270 = rotate270(&side_corner);
    let mut pairs: Vec<ImagePair> = Vec::new();
    pairs.push(
        ImagePair {
            buffer: stamp_top_left(Tile::blank(tile_size, tile_size), &side_corner),
            adjacent_tiles: [Adjacency::Present, Adjacency::Unconstrained,
                Adjacency::Unconstrained, Adjacency::Unconstrained, Adjacency::Unconstrained,
                Adjacency::Unconstrained, Adjacency::Absent, Adjacency::Unconstrained],
        },
    );
    pairs.push(
        ImagePair {
            buffer: stamp_top_left(Tile::blank(tile_size, tile_size), &r90),
            adjacent_tiles: [Adjacency::Absent, Adjacency::Unconstrained,
                Adjacency::Unconstrained, Adjacency::Unconstrained, Adjacency::Unconstrained,
                Adjacency::Unconstrained, Adjacency::Present, Adjacency::Unconstrained],
        },
    );
    pairs.push(
        ImagePair {
            buffer: stamp_top_right(Tile::blank(tile_size, tile_size), &r90),
            adjacent_tiles: [Adjacency::Absent, Adjacency::Unconstrained, Adjacency::Present,
                Adjacency::Unconstrained, Adjacency::Unconstrained, Adjacency::Unconstrained,
                Adjacency::Unconstrained, Adjacency::Unconstrained],
        },
    );
    pairs.push(
        ImagePair {
            buffer: stamp_top_right(Tile::blank(tile_size, tile_size), &r180),
            adjacent_tiles: [Adjacency::Present, Adjacency::Unconstrained, Adjacency::Absent,
                Adjacency::Unconstrained, Adjacency::Unconstrained, Adjacency::Unconstrained,
                Adjacency::Unconstrained, Adjacency::Unconstrained],
        },
    );
    pairs.push(
        ImagePair {
            buffer: stamp_bottom_right(Tile::blank(tile_size, tile_size), &r180),
            adjacent_tiles: [Adjacency::Unconstrained, Adjacency::Unconstrained,
                Adjacency::Absent, Adjacency::Unconstrained, Adjacency::Present,
                Adjacency::Unconstrained, Adjacency::Unconstrained, Adjacency::Unconstrained],
        },
    );
    pairs.push(
        ImagePair {
            buffer: stamp_bottom_right(Tile::blank(tile_size, tile_size), &r270),
            adjacent_tiles: [Adjacency::Unconstrained, Adjacency::Unconstrained,
                Adjacency::Present, Adjacency::Unconstrained, Adjacency::Absent,
                Adjacency::Unconstrained, Adjacency::Unconstrained, Adjacency::Unconstrained],
        },
    );
    pairs.push(
        ImagePair {
            buffer: stamp_bottom_left(Tile::blank(tile_size, tile_size), &r270),
            adjacent_tiles: [Adjacency::Unconstrained, Adjacency::Unconstrained,
                Adjacency::Unconstrained, Adjacency::Unconstrained, Adjacency::Absent,
                Adjacency::Unconstrained, Adjacency::Present, Adjacency::Unconstrained],
        },
    );
    pairs.push(
        ImagePair {
            buffer: stamp_bottom_left(Tile::blank(tile_size, tile_size), &side_corner),
            adjacent_tiles: [Adjacency::Unconstrained, Adjacency::Unconstrained,
                Adjacency::Unconstrained, Adjacency::Unconstrained, Adjacency::Present,
                Adjacency::Unconstrained, Adjacency::Absent, Adjacency::Unconstrained],
        },
    );
    pairs
}

/// The neighbour constraint of the `k`-th outer-corner pair.
pub open spec fn outer_constraint(k: int) -> Seq<Adjacency> {
    if k == 0 {
        seq![Adjacency::Absent, Adjacency::Unconstrained, Adjacency::Unconstrained,
            Adjacency::Unconstrained, Adjacency::Unconstrained, Adjacency::Unconstrained,
            Adjacency::Absent, Adjacency::Unconstrained]
    } else if k == 1 {
        seq![Adjacency::Absent, Adjacency::Unconstrained, Adjacency::Absent,
            Adjacency::Unconstrained, Adjacency::Unconstrained, Adjacency::Unconstrained,
            Adjacency::Unconstrained, Adjacency::Unconstrained]
    } else if k == 2 {
        seq![Adjacency::Unconstrained, Adjacency::Unconstrained, Adjacency::Absent,
            Adjacency::Unconstrained, Adjacency::Absent, Adjacency::Unconstrained,
            Adjacency::Unconstrained, Adjacency::Unconstrained]
    } else {
        seq![Adjacency::Unconstrained, Adjacency::Unconstrained, Adjacency::Unconstrained,
            Adjacency::Unconstrained, Adjacency::Absent, Adjacency::Unconstrained,
            Adjacency::Absent, Adjacency::Unconstrained]
    }
}

/// The pixels of the `k`-th outer-corner pair's buffer.
pub open spec fn outer_buffer(img: Seq<Px>, iw: int, t: int, k: int) -> Seq<Px> {
    let h = t / 2;
    let f = frag_seq(img, iw, COL_OUTER as int, t, h, h);
    if k == 0 {
        stamped_seq(f, h, h, t, 0, 0)
    } else if k == 1 {
        stamped_seq(rot90_seq(f, h, h), h, h, t, t - h, 0)
    } else if k == 2 {
        stamped_seq(rot180_seq(f, h, h), h, h, t, t - h, t - h)
    } else {
        stamped_seq(rot270_seq(f, h, h), h, h, t, 0, t - h)
    }
}

/// The four outer-corner pairs: a convex decoration for each corner,
/// demanding both orthogonal neighbours adjacent to it absent.
pub fn generate_outer_corner_pairs(img: &Tile, tile_size: u32) -> (pairs: Vec<ImagePair>)
    requires
        source_ok(*img, tile_size),
    ensures
        pairs@.len() == 4,
        forall|k: int|
            0 <= k < 4 ==> (#[trigger] pairs@[k]).adjacent_tiles@ =~= outer_constraint(k),
        forall|k: int|
            0 <= k < 4 ==> (#[trigger] pairs@[k]).buffer.wf() && pairs@[k].buffer.width
                == tile_size && pairs@[k].buffer.height == tile_size,
        forall|k: int|
            0 <= k < 4 ==> (#[trigger] pairs@[k]).buffer.pixels@ == outer_buffer(
                img.pixels@,
                img.width as int,
                tile_size as int,
                k,
            ),
{
    let t2 = tile_size / 2;
    let outer_corner = copy_fragment(img, COL_OUTER, tile_size, t2);
    let r90 = rotate90(&outer_corner);
    let r180 = rotate180(&outer_corner);
    let r270 = rotate270(&outer_corner);
    let mut pairs: Vec<ImagePair> = Vec::new();
    pairs.push(
        ImagePair {
            buffer: stamp_top_left(Tile::blank(tile_size, tile_size), &outer_corner),
            adjacent_tiles: [Adjacency::Absent, Adjacency::Unconstrained,
                Adjacency::Unconstrained, Adjacency::Unconstrained, Adjacency::Unconstrained,
                Adjacency::Unconstrained, Adjacency::Absent, Adjacency::Unconstrained],
        },
    );
    pairs.push(
        ImagePair {
            buffer: stamp_top_right(Tile::blank(tile_size, tile_size), &r90),
            adjacent_tiles: [Adjacency::Absent, Adjacency::Unconstrained, Adjacency::Absent,
                Adjacency::Unconstrained, Adjacency::Unconstrained, Adjacency::Unconstrained,
                Adjacency::Unconstrained, Adjacency::Unconstrained],
        },
    );
    pairs.push(
        ImagePair {
            buffer: stamp_bottom_right(Tile::blank(tile_size, tile_size), &r180),
            adjacent_tiles: [Adjacency::Unconstrained, Adjacency::Unconstrained,
                Adjacency::Absent, Adjacency::Unconstrained, Adjacency::Absent,
                Adjacency::Unconstrained, Adjacency::Unconstrained, Adjacency::Unconstrained],
        },
    );
    pairs.push(
        ImagePair {
            buffer: stamp_bottom_left(Tile::blank(tile_size, tile_size), &r270),
            adjacent_tiles: [Adjacency::Unconstrained, Adjacency::Unconstrained,
                Adjacency::Unconstrained, Adjacency::Unconstrained, Adjacency::Absent,
                Adjacency::Unconstrained, Adjacency::Absent, Adjacency::Unconstrained],
        },
    );
    pairs
}

/// The constraint of the universal back pair: every neighbour present.
pub open spec fn back_constraint() -> Seq<Adjacency> {
    seq![Adjacency::Present, Adjacency::Present, Adjacency::Present, Adjacency::Present,
        Adjacency::Present, Adjacency::Present, Adjacency::Present, Adjacency::Present]
}

/// The pixels of the plain back-fill swatch.
pub open spec fn back_seq(img: Seq<Px>, iw: int, t: int) -> Seq<Px> {
    frag_seq(img, iw, COL_BACK as int, t, t, t)
}

/// The pixels of the top-cap swatch, drawn over any tile with open space
/// directly above it.
pub open spec fn top_seq(img: Seq<Px>, iw: int, t: int) -> Seq<Px> {
    frag_seq(img, iw, COL_TOP as int, t, t, t)
}

/// The universal back pair: the plain fill swatch, constrained to masks
/// with every neighbour present.
pub fn generate_back_pair(img: &Tile, tile_size: u32) -> (pair: ImagePair)
    requires
        source_ok(*img, tile_size),
    ensures
        pair.adjacent_tiles@ =~= back_constraint(),
        pair.buffer.wf(),
        pair.buffer.width == tile_size,
        pair.buffer.height == tile_size,
        pair.buffer.pixels@ == back_seq(img.pixels@, img.width as int, tile_size as int),
{
    ImagePair {
        buffer: copy_fragment(img, COL_BACK, tile_size, tile_size),
        adjacent_tiles: [Adjacency::Present, Adjacency::Present, Adjacency::Present,
            Adjacency::Present, Adjacency::Present, Adjacency::Present, Adjacency::Present,
            Adjacency::Present],
    }
}

/// The neighbour constraint of the `k`-th pair of the full generation
/// order: the four inner corners, the eight side corners, the four outer
/// corners, then the universal back pair.
pub open spec fn std_constraint(k: int) -> Seq<Adjacency> {
    if k < 4 {
        inner_constraint(k)
    } else if k < 12 {
        side_constraint(k - 4)
    } else if k < 16 {
        outer_constraint(k - 12)
    } else {
        back_constraint()
    }
}

/// The buffer pixels of the `k`-th pair of the full generation order.
pub open spec fn std_buffer(img: Seq<Px>, iw: int, t: int, k: int) -> Seq<Px> {
    if k < 4 {
        inner_buffer(img, iw, t, k)
    } else if k < 12 {
        side_buffer(img, iw, t, k - 4)
    } else if k < 16 {
        outer_buffer(img, iw, t, k - 12)
    } else {
        back_seq(img, iw, t)
    }
}

/// The constraint and buffer pixels of all seventeen pairs, in generation
/// order.
pub open spec fn std_pair_data(img: Seq<Px>, iw: int, t: int) -> Seq<(Seq<Adjacency>, Seq<Px>)> {
    Seq::new(17, |k: int| (std_constraint(k), std_buffer(img, iw, t, k)))
}

/// The `t/2` x `t/2` (or, for the full-tile columns, `size` x `size`)
/// fragment at column `col` of the source image.
pub(crate) fn copy_fragment(img: &Tile, col: u32, tile_size: u32, size: u32) -> (r: Tile)
    requires
        img.wf(),
        col < 5,
        5 * tile_size <= img.width,
        tile_size <= img.height,
        size <= tile_size,
    ensures
        r.wf(),
        r.width == size,
        r.height == size,
        r.pixels@ == frag_seq(
            img.pixels@,
            img.width as int,
            col as int,
            tile_size as int,
            size as int,
            size as int,
        ),
{
    proof {
        assert((tile_size as int) * (col as int) == (col as int) * (tile_size as int)
            && (tile_size as int) * (col as int) + (size as int) <= 5 * (tile_size as int))
            by (nonlinear_arith)
            requires
                col < 5,
                size <= tile_size,
        ;
    }
    crate::tile::copy_pixels(img, tile_size * col, 0, size, size)
}

} // verus!

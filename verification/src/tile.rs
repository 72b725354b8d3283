//! One axis of the tile-to-region mapping.
//!
//! A tile of a Deep Zoom level is mapped to the native level chosen for it in
//! four coordinate spaces: tile indices, pixels of the Deep Zoom level, pixels
//! of the native level, and pixels of level 0. Both axes are mapped alike, so
//! everything here speaks of one of them.

use crate::arith::{ceil_div, clamp_u32, lemma_ceil_div_bounds, min_of};
use crate::binary64::{
    double_of, lemma_double_of_integer, lemma_plus_integers, lemma_times_integers, Dyadic,
};
use crate::downsample::{Downsample, LevelRatio};
use vstd::arithmetic::power2::{lemma2_to64, pow2};
use vstd::prelude::*;

verus! {

/// The overlap added before a tile: none before the first tile of the axis.
pub open spec fn inset_before(overlap: u32, index: u32) -> int {
    if index != 0 {
        overlap as int
    } else {
        0
    }
}

/// The overlap added after a tile: none after the last tile of the axis.
pub open spec fn inset_after(overlap: u32, tiles: u32, index: u32) -> int {
    if index + 1 != tiles {
        overlap as int
    } else {
        0
    }
}

/// The extent of a tile without its overlap: the tile size, or what is left
/// of the level for the last tile.
pub open spec fn core_extent(tile_size: u32, dim: u32, index: u32) -> int {
    min_of(tile_size as int, dim - tile_size * index)
}

/// The extent in pixels that the tile image must have.
pub open spec fn tile_extent(tile_size: u32, overlap: u32, dim: u32, tiles: u32, index: u32) -> int {
    core_extent(tile_size, dim, index) + inset_before(overlap, index) + inset_after(
        overlap,
        tiles,
        index,
    )
}

/// Where the tile starts in the Deep Zoom level, overlap included.
pub open spec fn zoom_origin(tile_size: u32, overlap: u32, index: u32) -> int {
    tile_size * index - inset_before(overlap, index)
}

/// Where the tile starts in the native level: the start in the Deep Zoom
/// level scaled by `ratio` and rounded up.
pub open spec fn level_origin(ratio: Dyadic, tile_size: u32, overlap: u32, index: u32) -> u32 {
    ratio.ceil_times(zoom_origin(tile_size, overlap, index))
}

/// Where the tile starts in level 0: the start in the native level scaled by
/// the level's downsample factor and moved by the offset of the bounds, with
/// the fraction of a pixel dropped.
pub open spec fn slide_origin(factor: Dyadic, origin: u32, offset: u32) -> u32 {
    factor.floor_times_plus(origin as nat, offset as nat)
}

/// The extent to read from the native level: the extent of the tile scaled by
/// `ratio` and rounded up, but no more than the level holds from `origin` on.
pub open spec fn level_extent(ratio: Dyadic, extent: int, origin: u32, limit: u32) -> u32 {
    let wanted = ratio.ceil_times(extent);
    let left = if origin <= limit {
        (limit - origin) as u32
    } else {
        0u32
    };
    if wanted <= left {
        wanted
    } else {
        left
    }
}

/// What the mapping of one axis of a tile yields.
pub struct AxisSpan {
    /// The start of the region in level-0 pixels.
    pub slide_origin: u32,
    /// The extent of the region in pixels of the native level.
    pub level_extent: u32,
    /// The extent of the tile image.
    pub tile_extent: u32,
}

/// The mapping of tile `index` on an axis of `tiles` tiles over `dim` pixels.
pub open spec fn axis_span(
    tile_size: u32,
    overlap: u32,
    dim: u32,
    tiles: u32,
    index: u32,
    ratio: Dyadic,
    factor: Dyadic,
    offset: u32,
    limit: u32,
) -> AxisSpan {
    let origin = level_origin(ratio, tile_size, overlap, index);
    let extent = tile_extent(tile_size, overlap, dim, tiles, index);
    AxisSpan {
        slide_origin: slide_origin(factor, origin, offset),
        level_extent: level_extent(ratio, extent, origin, limit),
        tile_extent: extent as u32,
    }
}

/// A tile of the grid starts inside the level, and its extent with both
/// overlaps fits 32 bits.
pub proof fn lemma_tile_inside(tile_size: u32, overlap: u32, dim: u32, tiles: u32, index: u32)
    requires
        tile_size > 0,
        tile_size + 2 * overlap <= u32::MAX,
        tiles == ceil_div(dim as int, tile_size as int),
        index < tiles,
    ensures
        tile_size * index < dim,
        1 <= core_extent(tile_size, dim, index) <= tile_size,
        1 <= tile_extent(tile_size, overlap, dim, tiles, index) <= tile_size + 2 * overlap,
        index + 1 < tiles ==> core_extent(tile_size, dim, index) == tile_size,
        index + 1 == tiles ==> core_extent(tile_size, dim, index) == dim - tile_size * index,
{
    lemma_ceil_div_bounds(dim as int, tile_size as int);
    assert(tile_size * index <= tile_size * (tiles - 1)) by (nonlinear_arith)
        requires
            index <= tiles - 1,
    ;
    assert(tile_size * (tiles - 1) == (tiles - 1) * tile_size) by (nonlinear_arith);
    assert(tiles * tile_size == (tiles - 1) * tile_size + tile_size) by (nonlinear_arith);
    if index + 1 < tiles {
        assert(tile_size * index + tile_size <= tile_size * (tiles - 1)) by (nonlinear_arith)
            requires
                index + 1 <= tiles - 1,
        ;
    }
}

/// The pixels of a level that the first `count` tiles of an axis hold
/// between them, overlap left out.
pub open spec fn covered(tile_size: u32, dim: u32, count: nat) -> int
    decreases count,
{
    if count == 0 {
        0
    } else {
        covered(tile_size, dim, (count - 1) as nat) + core_extent(
            tile_size,
            dim,
            (count - 1) as u32,
        )
    }
}

/// All tiles before the last hold a full tile size each.
proof fn lemma_covered_before_last(tile_size: u32, dim: u32, tiles: u32, count: nat)
    requires
        tile_size > 0,
        tiles == ceil_div(dim as int, tile_size as int),
        count < tiles,
    ensures
        covered(tile_size, dim, count) == tile_size * count,
    decreases count,
{
    if count > 0 {
        let before = (count - 1) as nat;
        lemma_covered_before_last(tile_size, dim, tiles, before);
        lemma_tile_inside(tile_size, 0, dim, tiles, before as u32);
        assert(core_extent(tile_size, dim, before as u32) == tile_size);
        assert(covered(tile_size, dim, count) == covered(tile_size, dim, before) + core_extent(
            tile_size,
            dim,
            before as u32,
        ));
        assert(tile_size * before + tile_size == tile_size * count) by (nonlinear_arith)
            requires
                before + 1 == count,
        ;
    } else {
        assert(tile_size * count == 0) by (nonlinear_arith)
            requires
                count == 0,
        ;
    }
}

/// The tiles of an axis, overlap left out, lie side by side from the start
/// of the level to its end: each begins where the one before it ends, and
/// together they hold every pixel of the level once.
pub proof fn lemma_tiles_cover_axis(tile_size: u32, dim: u32, tiles: u32)
    requires
        tile_size > 0,
        tiles == ceil_div(dim as int, tile_size as int),
    ensures
        covered(tile_size, dim, tiles as nat) == dim,
        forall|index: u32|
            index + 1 < tiles ==> tile_size * index + #[trigger] core_extent(tile_size, dim, index)
                == tile_size * (index + 1),
        tiles > 0 ==> tile_size * (tiles - 1) + core_extent(tile_size, dim, (tiles - 1) as u32)
            == dim,
{
    lemma_ceil_div_bounds(dim as int, tile_size as int);
    if tiles > 0 {
        let last = (tiles - 1) as u32;
        lemma_covered_before_last(tile_size, dim, tiles, last as nat);
        lemma_tile_inside(tile_size, 0, dim, tiles, last);
    } else {
        assert(dim == 0) by (nonlinear_arith)
            requires
                dim <= 0 * tile_size,
        ;
    }
    assert forall|index: u32| index + 1 < tiles implies tile_size * index + #[trigger] core_extent(
        tile_size,
        dim,
        index,
    ) == tile_size * (index + 1) by {
        lemma_tile_inside(tile_size, 0, dim, tiles, index);
        assert(tile_size * index + tile_size == tile_size * (index + 1)) by (nonlinear_arith);
    }
}

/// The only tile of an axis has no overlap on either side and holds the
/// whole level.
pub proof fn lemma_single_tile(tile_size: u32, overlap: u32, dim: u32)
    requires
        tile_size > 0,
        ceil_div(dim as int, tile_size as int) == 1,
    ensures
        inset_before(overlap, 0) == 0,
        inset_after(overlap, 1, 0) == 0,
        tile_extent(tile_size, overlap, dim, 1, 0) == dim,
{
    lemma_tile_inside(tile_size, 0, dim, 1, 0);
}

/// The mapping of a tile in whole numbers: where one pixel of the Deep Zoom
/// level covers `ratio` pixels of the native level, and one of those
/// `factor` pixels of level 0, a tile that starts at `z` with extent `n` is
/// read from `ratio * z` on, `ratio * n` pixels long or as many as the level
/// has left, and begins at `factor * ratio * z` in level 0, moved by the
/// offset.
pub open spec fn whole_span(
    tile_size: u32,
    overlap: u32,
    dim: u32,
    tiles: u32,
    index: u32,
    ratio: nat,
    factor: nat,
    offset: u32,
    limit: u32,
) -> AxisSpan {
    let z = zoom_origin(tile_size, overlap, index);
    let n = tile_extent(tile_size, overlap, dim, tiles, index);
    let origin = if z <= 0 {
        0u32
    } else {
        clamp_u32(ratio * z)
    };
    let left = if origin <= limit {
        limit - origin
    } else {
        0
    };
    AxisSpan {
        slide_origin: clamp_u32(factor * origin + offset),
        level_extent: min_of(clamp_u32(ratio * n) as int, left) as u32,
        tile_extent: n as u32,
    }
}

/// With whole downsamples the mapping is whole-number arithmetic: no
/// product is rounded.
pub proof fn lemma_whole_downsamples(
    tile_size: u32,
    overlap: u32,
    dim: u32,
    tiles: u32,
    index: u32,
    ratio: nat,
    factor: nat,
    offset: u32,
    limit: u32,
)
    requires
        tile_size > 0,
        tile_size + 2 * overlap <= u32::MAX,
        tiles == ceil_div(dim as int, tile_size as int),
        index < tiles,
        0 < ratio < 0x10_0000,
        0 < factor < 0x10_0000,
    ensures
        axis_span(
            tile_size,
            overlap,
            dim,
            tiles,
            index,
            double_of(ratio),
            double_of(factor),
            offset,
            limit,
        ) == whole_span(tile_size, overlap, dim, tiles, index, ratio, factor, offset, limit),
{
    lemma_tile_inside(tile_size, overlap, dim, tiles, index);
    let z = zoom_origin(tile_size, overlap, index);
    let n = tile_extent(tile_size, overlap, dim, tiles, index);
    if z > 0 {
        assert(0 < ratio * z < 0x10_0000 * 0x1_0000_0000) by (nonlinear_arith)
            requires
                0 < ratio < 0x10_0000,
                0 < z < 0x1_0000_0000,
        ;
        lemma_times_integers(ratio, z as nat);
        lemma_double_of_integer((ratio * z) as nat);
    }
    assert(0 < ratio * n < 0x10_0000 * 0x1_0000_0000) by (nonlinear_arith)
        requires
            0 < ratio < 0x10_0000,
            0 < n < 0x1_0000_0000,
    ;
    lemma_times_integers(ratio, n as nat);
    lemma_double_of_integer((ratio * n) as nat);
    let origin = level_origin(double_of(ratio), tile_size, overlap, index);
    assert(0 <= factor * origin < 0x10_0000 * 0x1_0000_0000) by (nonlinear_arith)
        requires
            0 < factor < 0x10_0000,
            0 <= origin < 0x1_0000_0000,
    ;
    lemma_double_of_integer(factor);
    if origin > 0 {
        lemma_times_integers(factor, origin as nat);
    } else {
        assert(double_of(factor).m * 0 == 0) by (nonlinear_arith);
        assert(factor * origin == 0) by (nonlinear_arith)
            requires
                origin == 0,
        ;
    }
    lemma_plus_integers((factor * origin) as nat, offset as nat);
    if factor * origin + offset > 0 {
        lemma_double_of_integer((factor * origin + offset) as nat);
    } else {
        lemma2_to64();
        assert(0nat * pow2(0) == 0) by (nonlinear_arith);
    }
}

/// Maps tile `index` of one axis.
pub fn map_axis(
    tile_size: u32,
    overlap: u32,
    dim: u32,
    tiles: u32,
    index: u32,
    ratio: &LevelRatio,
    factor: &Downsample,
    offset: u32,
    limit: u32,
) -> (out: AxisSpan)
    requires
        tile_size > 0,
        tile_size + 2 * overlap <= u32::MAX,
        tiles == ceil_div(dim as int, tile_size as int),
        index < tiles,
    ensures
        out == axis_span(tile_size, overlap, dim, tiles, index, ratio@, factor@, offset, limit),
{
    proof {
        lemma_tile_inside(tile_size, overlap, dim, tiles, index);
    }
    let before: u32 = if index != 0 {
        overlap
    } else {
        0
    };
    let after: u32 = if index != tiles - 1 {
        overlap
    } else {
        0
    };
    let start: u32 = tile_size * index;
    let rest: u32 = dim - start;
    let core: u32 = if tile_size <= rest {
        tile_size
    } else {
        rest
    };
    let extent: u32 = core + before + after;
    let origin: u32 = ratio.ceil_times(start as i64 - before as i64);
    let wanted: u32 = ratio.ceil_times(extent as i64);
    let left: u32 = if origin <= limit {
        limit - origin
    } else {
        0
    };
    AxisSpan {
        slide_origin: factor.floor_times_plus(origin, offset),
        level_extent: if wanted <= left {
            wanted
        } else {
            left
        },
        tile_extent: extent,
    }
}

} // verus!

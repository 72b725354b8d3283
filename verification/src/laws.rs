//! What holds of every engine.

use crate::arith::{ceil_div, lemma_ceil_div_range};
use crate::binary64::{double_of, lemma_under_integers};
use crate::deepzoom::{outcome, DeepZoomView};
use crate::error::{ErrorView, OpenSlideError};
use crate::geometry::{Address, Region, Size};
use crate::pyramid::{halve, is_apex, lemma_pyramid_shape, pyramid, tile_grids};
use crate::text::decimal;
use crate::tile::{
    core_extent, covered, inset_after, inset_before, lemma_tile_inside, lemma_tiles_cover_axis,
    lemma_whole_downsamples, level_origin, whole_span,
};
use vstd::arithmetic::power2::pow2;
use vstd::prelude::*;

verus! {

/// The tile grid of a level has on each axis the extent of the level over
/// the tile size, rounded up.
pub proof fn lemma_level_tiles(engine: DeepZoomView, level: int)
    requires
        engine.tile_size > 0,
        engine.level_tiles == tile_grids(engine.level_dimensions, engine.tile_size),
        0 <= level < engine.level_dimensions.len(),
    ensures
        engine.level_tiles[level].w == ceil_div(
            engine.level_dimensions[level].w as int,
            engine.tile_size as int,
        ),
        engine.level_tiles[level].h == ceil_div(
            engine.level_dimensions[level].h as int,
            engine.tile_size as int,
        ),
{
    lemma_ceil_div_range(engine.level_dimensions[level].w as int, engine.tile_size as int);
    lemma_ceil_div_range(engine.level_dimensions[level].h as int, engine.tile_size as int);
}

/// The tiles of a level reconstruct the level. The size of each tile is its
/// share of the level and the overlap on the sides where it has a
/// neighbour; the shares of the tiles of a row add up to the width of the
/// level, and those of a column to its height.
pub proof fn lemma_tiles_reconstruct_level(engine: DeepZoomView, level: u32)
    requires
        engine.wf(),
        level < engine.level_dimensions.len(),
    ensures
        ({
            let dims = engine.level_dimensions[level as int];
            let tiles = engine.level_tiles[level as int];
            &&& covered(engine.tile_size, dims.w, tiles.w as nat) == dims.w
            &&& covered(engine.tile_size, dims.h, tiles.h as nat) == dims.h
            &&& forall|address: Address| #[trigger]
                engine.has_tile(level, address) ==> {
                    &&& engine.tile_dimensions(level, address).w == core_extent(
                        engine.tile_size,
                        dims.w,
                        address.x,
                    ) + inset_before(engine.overlap, address.x) + inset_after(
                        engine.overlap,
                        tiles.w,
                        address.x,
                    )
                    &&& engine.tile_dimensions(level, address).h == core_extent(
                        engine.tile_size,
                        dims.h,
                        address.y,
                    ) + inset_before(engine.overlap, address.y) + inset_after(
                        engine.overlap,
                        tiles.h,
                        address.y,
                    )
                }
        }),
{
    let dims = engine.level_dimensions[level as int];
    let tiles = engine.level_tiles[level as int];
    lemma_level_tiles(engine, level as int);
    lemma_tiles_cover_axis(engine.tile_size, dims.w, tiles.w);
    lemma_tiles_cover_axis(engine.tile_size, dims.h, tiles.h);
    assert forall|address: Address| #[trigger] engine.has_tile(level, address) implies {
        &&& engine.tile_dimensions(level, address).w == core_extent(
            engine.tile_size,
            dims.w,
            address.x,
        ) + inset_before(engine.overlap, address.x) + inset_after(
            engine.overlap,
            tiles.w,
            address.x,
        )
        &&& engine.tile_dimensions(level, address).h == core_extent(
            engine.tile_size,
            dims.h,
            address.y,
        ) + inset_before(engine.overlap, address.y) + inset_after(
            engine.overlap,
            tiles.h,
            address.y,
        )
    } by {
        lemma_tile_inside(engine.tile_size, engine.overlap, dims.w, tiles.w, address.x);
        lemma_tile_inside(engine.tile_size, engine.overlap, dims.h, tiles.h, address.y);
    }
}

/// Tile requests are pure: two calls of `tile_region` with the same level and
/// address on one engine give the same outcome, and so do two calls of
/// `tile_size`. Each outcome is what the contract of the call allows, and
/// that is a function of the tables of the engine, the level and the address.
pub proof fn lemma_tile_requests_are_pure(
    engine: DeepZoomView,
    level: u32,
    address: Address,
    first_region: Result<Region, OpenSlideError>,
    second_region: Result<Region, OpenSlideError>,
    first_size: Result<Size, OpenSlideError>,
    second_size: Result<Size, OpenSlideError>,
)
    requires
        outcome(first_region) == engine.region_of(level, address),
        outcome(second_region) == engine.region_of(level, address),
        outcome(first_size) == engine.size_of(level, address),
        outcome(second_size) == engine.size_of(level, address),
    ensures
        outcome(first_region) == outcome(second_region),
        outcome(first_size) == outcome(second_size),
{
}

/// The finest level of the pyramid has the dimensions of native level 0 as
/// the engine shows it; every other level is the following one halved, and
/// the coarsest has no more than one pixel on each axis.
pub proof fn lemma_level_dimensions(engine: DeepZoomView)
    requires
        engine.level_dimensions == pyramid(engine.slide_level_dimensions[0]),
    ensures
        engine.level_dimensions.len() >= 1,
        engine.level_dimensions[engine.level_dimensions.len() - 1]
            == engine.slide_level_dimensions[0],
        is_apex(engine.level_dimensions[0]),
        forall|lvl: int|
            0 <= lvl < engine.level_dimensions.len() - 1 ==> #[trigger] engine.level_dimensions[lvl]
                == halve(engine.level_dimensions[lvl + 1]),
{
    lemma_pyramid_shape(engine.slide_level_dimensions[0]);
}

/// A request outside the pyramid fails with an index error that names the
/// level, and a request inside it succeeds.
pub proof fn lemma_tile_range(engine: DeepZoomView, level: u32, address: Address)
    ensures
        level >= engine.level_dimensions.len() ==> engine.region_of(level, address) == Err::<
            Region,
            _,
        >(ErrorView::IndexError(decimal(level as nat))),
        engine.region_of(level, address) is Err <==> !engine.has_tile(level, address),
        engine.size_of(level, address) is Err <==> !engine.has_tile(level, address),
        !engine.has_tile(level, address) ==> engine.region_of(level, address)
            matches Err(ErrorView::IndexError(_)),
{
}

/// Where the downsample factor of the native level of a Deep Zoom level is a
/// whole number that divides the total downsample of the level, the tile is
/// mapped in whole numbers, with nothing rounded.
pub proof fn lemma_whole_levels(
    engine: DeepZoomView,
    level: u32,
    address: Address,
    ratio: nat,
    factor: nat,
)
    requires
        engine.wf(),
        engine.has_tile(level, address),
        0 < ratio < 0x10_0000,
        0 < factor < 0x10_0000,
        engine.l0_l_downsamples[engine.slide_from_dz_level[level as int] as int] == double_of(
            factor,
        ),
        pow2((engine.level_dimensions.len() - 1 - level) as nat) == factor * ratio,
    ensures
        ({
            let native = engine.slide_from_dz_level[level as int];
            let dims = engine.level_dimensions[level as int];
            let tiles = engine.level_tiles[level as int];
            let limit = engine.slide_level_dimensions[native as int];
            let x = whole_span(
                engine.tile_size,
                engine.overlap,
                dims.w,
                tiles.w,
                address.x,
                ratio,
                factor,
                engine.l0_offset.x,
                limit.w,
            );
            let y = whole_span(
                engine.tile_size,
                engine.overlap,
                dims.h,
                tiles.h,
                address.y,
                ratio,
                factor,
                engine.l0_offset.y,
                limit.h,
            );
            &&& engine.tile_region(level, address) == (Region {
                address: Address { x: x.slide_origin, y: y.slide_origin },
                level: native,
                size: Size { w: x.level_extent, h: y.level_extent },
            })
            &&& engine.tile_dimensions(level, address) == (Size {
                w: x.tile_extent,
                h: y.tile_extent,
            })
        }),
{
    let native = engine.slide_from_dz_level[level as int];
    let dims = engine.level_dimensions[level as int];
    let tiles = engine.level_tiles[level as int];
    let limit = engine.slide_level_dimensions[native as int];
    lemma_level_tiles(engine, level as int);
    assert(factor * ratio < 0x10_0000 * 0x10_0000) by (nonlinear_arith)
        requires
            0 < ratio < 0x10_0000,
            0 < factor < 0x10_0000,
    ;
    lemma_under_integers(factor, ratio);
    assert(engine.l_z_downsamples[level as int] == double_of(ratio));
    lemma_whole_downsamples(
        engine.tile_size,
        engine.overlap,
        dims.w,
        tiles.w,
        address.x,
        ratio,
        factor,
        engine.l0_offset.x,
        limit.w,
    );
    lemma_whole_downsamples(
        engine.tile_size,
        engine.overlap,
        dims.h,
        tiles.h,
        address.y,
        ratio,
        factor,
        engine.l0_offset.y,
        limit.h,
    );
}

/// The region of a tile never reaches past the native level it is read
/// from: on each axis it ends inside the level where it begins inside, and
/// is empty where it would begin outside.
pub proof fn lemma_region_inside_level(engine: DeepZoomView, level: u32, address: Address)
    requires
        engine.wf(),
        engine.has_tile(level, address),
    ensures
        ({
            let region = engine.tile_region(level, address);
            let limit = engine.slide_level_dimensions[region.level as int];
            let ratio = engine.l_z_downsamples[level as int];
            let x = level_origin(ratio, engine.tile_size, engine.overlap, address.x);
            let y = level_origin(ratio, engine.tile_size, engine.overlap, address.y);
            &&& region.level < engine.slide_level_dimensions.len()
            &&& x <= limit.w ==> x + region.size.w <= limit.w
            &&& y <= limit.h ==> y + region.size.h <= limit.h
            &&& x > limit.w ==> region.size.w == 0
            &&& y > limit.h ==> region.size.h == 0
        }),
{
}

} // verus!

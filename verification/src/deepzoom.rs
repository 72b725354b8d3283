//! The Deep Zoom engine: the level tables of a slide, and the mapping from a
//! tile of the pyramid to the region of the slide that fills it.

use crate::arith::{ceil_div, lemma_ceil_div_range};
use crate::binary64::Dyadic;
use crate::bounds::{property_or, read_property, scale_size, scaled_size, BoundsProperties};
use crate::downsample::{Downsample, LevelRatio};
use crate::error::{ErrorView, OpenSlideError};
use crate::geometry::{Address, Region, Size};
use crate::pixels::{can_resample, is_fitted, Pixels, PixelsView};
use crate::pyramid::{
    build_levels, build_tile_grids, halvings, lemma_halvings_is_log2, lemma_pyramid_shape,
    pyramid, tile_grid, tile_grids,
};
use crate::text::{decimal, decimal_string};
use crate::tile::{axis_span, map_axis, AxisSpan};
use vstd::arithmetic::power2::{lemma2_to64, lemma_pow2_strictly_increases, pow2};
use vstd::bits::lemma_u64_shl_is_mul;
use vstd::prelude::*;
use vstd::string::StringExecFns;

verus! {

/// The colour of a pixel that the slide leaves fully transparent, unless
/// another is chosen: white, as `0xRRGGBB`.
pub const DEFAULT_BACKGROUND: u32 = 0xff_ffff;

/// The answers a slide must give to build an engine: the downsamples `1`,
/// `2`, `4`, ... up to `2^32`.
pub const BEST_LEVEL_QUERIES: usize = 33;

/// One native level of a slide.
#[derive(Clone, Copy, Debug)]
pub struct SlideLevel {
    /// The pixel dimensions of the level.
    pub dimensions: Size,
    /// The downsample factor of the level relative to level 0.
    pub downsample: Downsample,
}

/// What the engine reads from a slide when it is built.
#[derive(Clone, Debug)]
pub struct SlideInfo {
    /// The native levels, level 0 first.
    pub levels: Vec<SlideLevel>,
    /// The native level that the slide holds best for the downsample `2^k`,
    /// at index `k`.
    pub best_levels: Vec<u32>,
    /// The bounds properties of the slide.
    pub bounds: BoundsProperties,
}

/// The first entry of `chosen` from index `from` on that is no native level
/// of a slide with `count` levels.
pub open spec fn first_out_of_range(chosen: Seq<u32>, count: nat, from: int) -> Option<u32>
    decreases chosen.len() - from,
{
    if from < 0 || from >= chosen.len() {
        None
    } else if chosen[from] >= count {
        Some(chosen[from])
    } else {
        first_out_of_range(chosen, count, from + 1)
    }
}

/// The native level named for each of `count` Deep Zoom levels, where
/// `best` holds at index `k` the level named for the downsample `2^k`: for
/// level `lvl` it is the entry for `2^(count - 1 - lvl)`.
pub open spec fn chosen_from(best: Seq<u32>, count: nat) -> Seq<u32> {
    Seq::new(count, |lvl: int| best[count - 1 - lvl])
}

impl SlideInfo {
    /// The origin of the bounds, or of the slide where the engine is not
    /// limited to the bounds.
    pub open spec fn offset(&self, limit_bounds: bool) -> Address {
        if limit_bounds {
            Address { x: property_or(self.bounds.x, 0), y: property_or(self.bounds.y, 0) }
        } else {
            Address { x: 0, y: 0 }
        }
    }

    /// The size of the bounds; each extent is that of level 0 where the
    /// slide does not name it.
    pub open spec fn bounds_size(&self) -> Size {
        let full = self.levels@[0].dimensions;
        Size {
            w: property_or(self.bounds.width, full.w),
            h: property_or(self.bounds.height, full.h),
        }
    }

    /// The dimensions of native level `level` as the engine sees them:
    /// scaled to the bounds where the engine is limited to them.
    pub open spec fn level_size(&self, limit_bounds: bool, level: int) -> Size {
        if limit_bounds {
            scaled_size(
                self.levels@[level].dimensions,
                self.bounds_size(),
                self.levels@[0].dimensions,
            )
        } else {
            self.levels@[level].dimensions
        }
    }

    /// The dimensions of all native levels as the engine sees them.
    pub open spec fn level_sizes(&self, limit_bounds: bool) -> Seq<Size> {
        Seq::new(self.levels@.len(), |level: int| self.level_size(limit_bounds, level))
    }

    /// The downsample factors of all native levels.
    pub open spec fn level_factors(&self) -> Seq<Dyadic> {
        Seq::new(self.levels@.len(), |level: int| self.levels@[level].downsample@)
    }

    /// The number of levels of the Deep Zoom pyramid.
    pub open spec fn zoom_level_count(&self, limit_bounds: bool) -> nat {
        halvings(self.level_size(limit_bounds, 0)) + 1
    }

    /// The native level that the slide names for each Deep Zoom level.
    pub open spec fn chosen_levels(&self, limit_bounds: bool) -> Seq<u32> {
        chosen_from(self.best_levels@, self.zoom_level_count(limit_bounds))
    }

    /// Why no engine can be built on the slide, if so: the slide has no
    /// level 0, or a tile with its overlap on both sides is wider than 32
    /// bits can say, or the slide lacks an answer for a downsample of the
    /// pyramid, or names a level that it does not have.
    pub open spec fn failure(&self, tile_size: u32, overlap: u32, limit_bounds: bool) -> Option<
        ErrorView,
    > {
        if self.levels@.len() == 0 {
            Some(ErrorView::InternalError("Level 0 out of range"@))
        } else if tile_size + 2 * overlap > u32::MAX {
            Some(ErrorView::InternalError("Tile too large"@))
        } else if self.best_levels@.len() < self.zoom_level_count(limit_bounds) {
            Some(ErrorView::InternalError("Best level missing"@))
        } else {
            match first_out_of_range(self.chosen_levels(limit_bounds), self.levels@.len(), 0) {
                Some(level) => Some(ErrorView::IndexError(decimal(level as nat))),
                None => None,
            }
        }
    }
}

/// The tables of an engine.
pub struct DeepZoomView {
    /// The edge of a tile without overlap.
    pub tile_size: u32,
    /// The pixels that adjacent tiles share on each side.
    pub overlap: u32,
    /// Whether the engine shows only the bounds of the slide.
    pub limit_bounds: bool,
    /// The origin of what the engine shows, in level-0 pixels.
    pub l0_offset: Address,
    /// The dimensions of each native level, as far as the engine shows it.
    pub slide_level_dimensions: Seq<Size>,
    /// The dimensions of each Deep Zoom level, coarsest first.
    pub level_dimensions: Seq<Size>,
    /// The tile grid of each Deep Zoom level.
    pub level_tiles: Seq<Size>,
    /// The native level that each Deep Zoom level is read from.
    pub slide_from_dz_level: Seq<usize>,
    /// The downsample factor of each native level.
    pub l0_l_downsamples: Seq<Dyadic>,
    /// For each Deep Zoom level, its total downsample over the factor of
    /// its native level.
    pub l_z_downsamples: Seq<Dyadic>,
    /// The colour shown where the slide is fully transparent.
    pub background: u32,
}

impl DeepZoomView {
    /// What holds of the tables of every engine.
    pub open spec fn wf(self) -> bool {
        &&& self.tile_size > 0
        &&& self.tile_size + 2 * self.overlap <= u32::MAX
        &&& self.slide_level_dimensions.len() > 0
        &&& self.l0_l_downsamples.len() == self.slide_level_dimensions.len()
        &&& self.level_dimensions == pyramid(self.slide_level_dimensions[0])
        &&& self.level_tiles == tile_grids(self.level_dimensions, self.tile_size)
        &&& self.slide_from_dz_level.len() == self.level_dimensions.len()
        &&& self.l_z_downsamples.len() == self.level_dimensions.len()
        &&& forall|lvl: int|
            0 <= lvl < self.level_dimensions.len() ==> {
                &&& (#[trigger] self.slide_from_dz_level[lvl]) < self.slide_level_dimensions.len()
                &&& self.l_z_downsamples[lvl] == self.l0_l_downsamples[self.slide_from_dz_level[lvl] as int].under(
                    pow2((self.level_dimensions.len() - 1 - lvl) as nat),
                )
            }
    }

    /// Every level has its tile grid: on each axis the extent of the level
    /// over the tile size, rounded up.
    pub open spec fn has_grids(self) -> bool {
        &&& self.level_tiles.len() == self.level_dimensions.len()
        &&& forall|lvl: int|
            0 <= lvl < self.level_dimensions.len() ==> {
                &&& (#[trigger] self.level_tiles[lvl]).w == ceil_div(
                    self.level_dimensions[lvl].w as int,
                    self.tile_size as int,
                )
                &&& self.level_tiles[lvl].h == ceil_div(
                    self.level_dimensions[lvl].h as int,
                    self.tile_size as int,
                )
            }
    }

    /// The engine shows the slide `source`. Its finest level has the
    /// dimensions of native level 0 as the engine sees it. Without the
    /// limit to the bounds every native level has its own dimensions and
    /// the offset is zero; with it every native level is scaled to the
    /// bounds and the offset is their origin.
    pub open spec fn shows(self, source: SlideInfo, limit_bounds: bool) -> bool {
        &&& self.level_dimensions.len() >= 1
        &&& self.level_dimensions[self.level_dimensions.len() - 1]
            == self.slide_level_dimensions[0]
        &&& self.slide_level_dimensions.len() == source.levels@.len()
        &&& forall|level: int|
            0 <= level < source.levels@.len() ==> (#[trigger] self.slide_level_dimensions[level])
                == if limit_bounds {
                scaled_size(
                    source.levels@[level].dimensions,
                    source.bounds_size(),
                    source.levels@[0].dimensions,
                )
            } else {
                source.levels@[level].dimensions
            }
        &&& self.l0_offset == if limit_bounds {
            Address { x: property_or(source.bounds.x, 0), y: property_or(source.bounds.y, 0) }
        } else {
            Address { x: 0, y: 0 }
        }
    }

    /// The pyramid has the level, and the level has the tile.
    pub open spec fn has_tile(self, level: u32, address: Address) -> bool {
        &&& level < self.level_dimensions.len()
        &&& address.x < self.level_tiles[level as int].w
        &&& address.y < self.level_tiles[level as int].h
    }

    /// The mapping of the tile along the x axis.
    pub open spec fn span_x(self, level: u32, address: Address) -> AxisSpan {
        let native = self.slide_from_dz_level[level as int] as int;
        axis_span(
            self.tile_size,
            self.overlap,
            self.level_dimensions[level as int].w,
            self.level_tiles[level as int].w,
            address.x,
            self.l_z_downsamples[level as int],
            self.l0_l_downsamples[native],
            self.l0_offset.x,
            self.slide_level_dimensions[native].w,
        )
    }

    /// The mapping of the tile along the y axis.
    pub open spec fn span_y(self, level: u32, address: Address) -> AxisSpan {
        let native = self.slide_from_dz_level[level as int] as int;
        axis_span(
            self.tile_size,
            self.overlap,
            self.level_dimensions[level as int].h,
            self.level_tiles[level as int].h,
            address.y,
            self.l_z_downsamples[level as int],
            self.l0_l_downsamples[native],
            self.l0_offset.y,
            self.slide_level_dimensions[native].h,
        )
    }

    /// The region of the slide that fills the tile.
    pub open spec fn tile_region(self, level: u32, address: Address) -> Region {
        let x = self.span_x(level, address);
        let y = self.span_y(level, address);
        Region {
            address: Address { x: x.slide_origin, y: y.slide_origin },
            level: self.slide_from_dz_level[level as int],
            size: Size { w: x.level_extent, h: y.level_extent },
        }
    }

    /// The size in pixels that the image of the tile must have.
    pub open spec fn tile_dimensions(self, level: u32, address: Address) -> Size {
        Size {
            w: self.span_x(level, address).tile_extent,
            h: self.span_y(level, address).tile_extent,
        }
    }

    /// What asking for a tile gives: its region and the size of its image,
    /// or the error for a tile that the pyramid does not have.
    pub open spec fn info_of(self, level: u32, address: Address) -> Result<(Region, Size), ErrorView> {
        if self.has_tile(level, address) {
            Ok((self.tile_region(level, address), self.tile_dimensions(level, address)))
        } else {
            Err(self.tile_error(level, address))
        }
    }

    /// What asking for the region of a tile gives.
    pub open spec fn region_of(self, level: u32, address: Address) -> Result<Region, ErrorView> {
        match self.info_of(level, address) {
            Ok(info) => Ok(info.0),
            Err(e) => Err(e),
        }
    }

    /// What asking for the size of a tile gives.
    pub open spec fn size_of(self, level: u32, address: Address) -> Result<Size, ErrorView> {
        match self.info_of(level, address) {
            Ok(info) => Ok(info.1),
            Err(e) => Err(e),
        }
    }

    /// Whether `out` is what the tile becomes of the pixels `pixels` that the
    /// slide holds in its region: the pixels brought to the size of the
    /// tile, or an error where the pyramid does not have the tile or the
    /// pixels cannot be resampled to its size.
    pub open spec fn is_tile_of(
        self,
        level: u32,
        address: Address,
        pixels: PixelsView,
        out: Result<PixelsView, ErrorView>,
    ) -> bool {
        match self.info_of(level, address) {
            Ok(info) => {
                if pixels.size != info.1 && !can_resample(pixels.size, info.1) {
                    out == Err::<PixelsView, _>(ErrorView::InternalError("Tile too large"@))
                } else {
                    &&& out matches Ok(tile)
                    &&& is_fitted(pixels, info.1, Some(tile))
                }
            },
            Err(e) => out == Err::<PixelsView, _>(e),
        }
    }

    /// The error for a tile that the pyramid does not have: it names the
    /// level, and the address too where the level exists.
    pub open spec fn tile_error(self, level: u32, address: Address) -> ErrorView {
        if level >= self.level_dimensions.len() {
            ErrorView::IndexError(decimal(level as nat))
        } else {
            ErrorView::IndexError(decimal(level as nat) + " address "@ + address.text())
        }
    }
}

/// The tables of the engine over a slide, for a slide on which one can be
/// built.
pub open spec fn deep_zoom_of(
    source: SlideInfo,
    tile_size: u32,
    overlap: u32,
    limit_bounds: bool,
) -> DeepZoomView {
    let sizes = source.level_sizes(limit_bounds);
    let factors = source.level_factors();
    let levels = pyramid(sizes[0]);
    let chosen = source.chosen_levels(limit_bounds);
    DeepZoomView {
        tile_size,
        overlap,
        limit_bounds,
        l0_offset: source.offset(limit_bounds),
        slide_level_dimensions: sizes,
        level_dimensions: levels,
        level_tiles: tile_grids(levels, tile_size),
        slide_from_dz_level: Seq::new(levels.len(), |lvl: int| chosen[lvl] as usize),
        l0_l_downsamples: factors,
        l_z_downsamples: Seq::new(
            levels.len(),
            |lvl: int| factors[chosen[lvl] as int].under(pow2((levels.len() - 1 - lvl) as nat)),
        ),
        background: DEFAULT_BACKGROUND,
    }
}

/// The tables built over a slide with a level 0, for any tile size but zero:
/// every level has its tile grid, the finest level is native level 0 as the
/// engine sees it, and the native levels and the offset are those of the
/// slide, scaled and moved to the bounds where the engine is limited to them.
pub proof fn lemma_built_tables(
    source: SlideInfo,
    tile_size: u32,
    overlap: u32,
    limit_bounds: bool,
)
    requires
        tile_size > 0,
        source.levels@.len() > 0,
    ensures
        deep_zoom_of(source, tile_size, overlap, limit_bounds).has_grids(),
        deep_zoom_of(source, tile_size, overlap, limit_bounds).shows(source, limit_bounds),
{
    let engine = deep_zoom_of(source, tile_size, overlap, limit_bounds);
    lemma_pyramid_shape(engine.slide_level_dimensions[0]);
    lemma_grids(engine);
}

/// Tables that hold the tile grids of their levels have, for each level and
/// axis, the extent of the level over the tile size, rounded up.
pub proof fn lemma_grids(engine: DeepZoomView)
    requires
        engine.tile_size > 0,
        engine.level_tiles == tile_grids(engine.level_dimensions, engine.tile_size),
    ensures
        engine.has_grids(),
{
    assert forall|lvl: int| 0 <= lvl < engine.level_dimensions.len() implies {
        &&& (#[trigger] engine.level_tiles[lvl]).w == ceil_div(
            engine.level_dimensions[lvl].w as int,
            engine.tile_size as int,
        )
        &&& engine.level_tiles[lvl].h == ceil_div(
            engine.level_dimensions[lvl].h as int,
            engine.tile_size as int,
        )
    } by {
        lemma_ceil_div_range(engine.level_dimensions[lvl].w as int, engine.tile_size as int);
        lemma_ceil_div_range(engine.level_dimensions[lvl].h as int, engine.tile_size as int);
    }
}

/// An outcome with its error, if any, as plain values.
pub open spec fn outcome<T>(result: Result<T, OpenSlideError>) -> Result<T, ErrorView> {
    match result {
        Ok(value) => Ok(value),
        Err(e) => Err(e@),
    }
}

/// The values that a sequence of downsample factors holds.
pub open spec fn factor_views(factors: Seq<Downsample>) -> Seq<Dyadic> {
    Seq::new(factors.len(), |i: int| factors[i]@)
}

/// The values that a sequence of level ratios holds.
pub open spec fn ratio_views(ratios: Seq<LevelRatio>) -> Seq<Dyadic> {
    Seq::new(ratios.len(), |i: int| ratios[i]@)
}

/// The Deep Zoom engine of one slide.
pub struct DeepZoom {
    tile_size: u32,
    overlap: u32,
    limit_bounds: bool,
    l0_offset: Address,
    slide_level_dimensions: Vec<Size>,
    level_dimensions: Vec<Size>,
    level_tiles: Vec<Size>,
    level_count: usize,
    slide_from_dz_level: Vec<usize>,
    l0_l_downsamples: Vec<Downsample>,
    l_z_downsamples: Vec<LevelRatio>,
    background: u32,
}

impl View for DeepZoom {
    type V = DeepZoomView;

    closed spec fn view(&self) -> DeepZoomView {
        DeepZoomView {
            tile_size: self.tile_size,
            overlap: self.overlap,
            limit_bounds: self.limit_bounds,
            l0_offset: self.l0_offset,
            slide_level_dimensions: self.slide_level_dimensions@,
            level_dimensions: self.level_dimensions@,
            level_tiles: self.level_tiles@,
            slide_from_dz_level: self.slide_from_dz_level@,
            l0_l_downsamples: factor_views(self.l0_l_downsamples@),
            l_z_downsamples: ratio_views(self.l_z_downsamples@),
            background: self.background,
        }
    }
}

/// The dimensions of the native levels as the engine sees them.
fn slide_sizes(source: &SlideInfo, limit_bounds: bool) -> (sizes: Vec<Size>)
    requires
        source.levels@.len() > 0,
    ensures
        sizes@ == source.level_sizes(limit_bounds),
{
    let full = source.levels[0].dimensions;
    let bounds = if limit_bounds {
        Size {
            w: read_property(&source.bounds.width, full.w),
            h: read_property(&source.bounds.height, full.h),
        }
    } else {
        full
    };
    let mut sizes: Vec<Size> = Vec::new();
    let mut level: usize = 0;
    while level < source.levels.len()
        invariant
            source.levels@.len() > 0,
            full == source.levels@[0].dimensions,
            limit_bounds ==> bounds == source.bounds_size(),
            level <= source.levels@.len(),
            sizes@.len() == level,
            forall|j: int| 0 <= j < level ==> sizes@[j] == source.level_size(limit_bounds, j),
        decreases source.levels@.len() - level,
    {
        let dims = source.levels[level].dimensions;
        if limit_bounds {
            sizes.push(scale_size(dims, bounds, full));
        } else {
            sizes.push(dims);
        }
        level = level + 1;
    }
    assert(sizes@ =~= source.level_sizes(limit_bounds));
    sizes
}

/// The downsample factors of the native levels.
fn slide_factors(source: &SlideInfo) -> (factors: Vec<Downsample>)
    ensures
        factors@.len() == source.levels@.len(),
        factor_views(factors@) == source.level_factors(),
{
    let mut factors: Vec<Downsample> = Vec::new();
    let mut level: usize = 0;
    while level < source.levels.len()
        invariant
            level <= source.levels@.len(),
            factors@.len() == level,
            forall|j: int| 0 <= j < level ==> factors@[j]@ == source.levels@[j].downsample@,
        decreases source.levels@.len() - level,
    {
        factors.push(source.levels[level].downsample);
        level = level + 1;
    }
    assert(factor_views(factors@) =~= source.level_factors());
    factors
}

/// What the slide's answers select for each Deep Zoom level: the native
/// level, and the ratio of the level's total downsample to its factor.
struct Selection {
    levels: Vec<usize>,
    ratios: Vec<LevelRatio>,
}

/// Selects a native level for each of `count` Deep Zoom levels.
fn select_levels(best: &Vec<u32>, factors: &Vec<Downsample>, count: usize) -> (out: Result<
    Selection,
    OpenSlideError,
>)
    requires
        count <= BEST_LEVEL_QUERIES,
        count <= best@.len(),
    ensures
        match out {
            Ok(selection) => {
                let chosen = chosen_from(best@, count as nat);
                &&& first_out_of_range(chosen, factors@.len(), 0) is None
                &&& selection.levels@.len() == count
                &&& selection.ratios@.len() == count
                &&& forall|lvl: int|
                    0 <= lvl < count ==> {
                        &&& (#[trigger] chosen[lvl]) < factors@.len()
                        &&& selection.levels@[lvl] == chosen[lvl]
                        &&& selection.ratios@[lvl]@ == factors@[chosen[lvl] as int]@.under(
                            pow2((count - 1 - lvl) as nat),
                        )
                    }
            },
            Err(e) => {
                let chosen = chosen_from(best@, count as nat);
                &&& first_out_of_range(chosen, factors@.len(), 0) matches Some(level)
                &&& e@ == ErrorView::IndexError(decimal(level as nat))
            },
        },
{
    let ghost chosen = chosen_from(best@, count as nat);
    let mut levels: Vec<usize> = Vec::new();
    let mut ratios: Vec<LevelRatio> = Vec::new();
    let mut lvl: usize = 0;
    while lvl < count
        invariant
            count <= BEST_LEVEL_QUERIES,
            count <= best@.len(),
            chosen == chosen_from(best@, count as nat),
            lvl <= count,
            levels@.len() == lvl,
            ratios@.len() == lvl,
            first_out_of_range(chosen, factors@.len(), 0) == first_out_of_range(
                chosen,
                factors@.len(),
                lvl as int,
            ),
            forall|j: int|
                0 <= j < lvl ==> {
                    &&& (#[trigger] chosen[j]) < factors@.len()
                    &&& levels@[j] == chosen[j]
                    &&& ratios@[j]@ == factors@[chosen[j] as int]@.under(
                        pow2((count - 1 - j) as nat),
                    )
                },
        decreases count - lvl,
    {
        let exponent: usize = count - 1 - lvl;
        let level: u32 = best[exponent];
        assert(level == chosen[lvl as int]);
        if level as usize >= factors.len() {
            return Err(OpenSlideError::IndexError(decimal_string(level)));
        }
        let shift: u64 = exponent as u64;
        proof {
            lemma2_to64();
            if shift < 32 {
                lemma_pow2_strictly_increases(shift as nat, 32);
            }
            lemma_u64_shl_is_mul(1, shift);
        }
        let total: u64 = 1u64 << shift;
        levels.push(level as usize);
        ratios.push(LevelRatio::new(total, &factors[level as usize]));
        lvl = lvl + 1;
    }
    Ok(Selection { levels, ratios })
}

impl DeepZoom {
    #[verifier::type_invariant]
    spec fn inv(self) -> bool {
        self@.wf() && self.level_count == self.level_dimensions@.len()
    }

    /// Builds the engine of a slide for tiles of edge `tile_size` that share
    /// `overlap` pixels with each neighbour. With `limit_bounds` the engine
    /// shows only the bounds that the slide names. The tile size must not be
    /// zero; every other input gives an engine or the error that
    /// `SlideInfo::failure` names.
    pub fn new(source: &SlideInfo, tile_size: u32, overlap: u32, limit_bounds: bool) -> (out:
        Result<DeepZoom, OpenSlideError>)
        requires
            tile_size > 0,
        ensures
            match out {
                Ok(engine) => {
                    &&& source.failure(tile_size, overlap, limit_bounds) is None
                    &&& engine@ == deep_zoom_of(*source, tile_size, overlap, limit_bounds)
                    &&& engine@.wf()
                    &&& engine@.has_grids()
                    &&& engine@.shows(*source, limit_bounds)
                },
                Err(e) => source.failure(tile_size, overlap, limit_bounds) == Some(e@),
            },
    {
        if source.levels.len() == 0 {
            return Err(OpenSlideError::InternalError(String::from_str("Level 0 out of range")));
        }
        if overlap > (u32::MAX - tile_size) / 2 {
            return Err(OpenSlideError::InternalError(String::from_str("Tile too large")));
        }
        let l0_offset = if limit_bounds {
            Address {
                x: read_property(&source.bounds.x, 0),
                y: read_property(&source.bounds.y, 0),
            }
        } else {
            Address { x: 0, y: 0 }
        };
        let slide_level_dimensions = slide_sizes(source, limit_bounds);
        let level_dimensions = build_levels(slide_level_dimensions[0]);
        let level_tiles = build_tile_grids(&level_dimensions, tile_size);
        let level_count = level_dimensions.len();
        proof {
            lemma_halvings_is_log2(slide_level_dimensions@[0]);
        }
        if source.best_levels.len() < level_count {
            return Err(OpenSlideError::InternalError(String::from_str("Best level missing")));
        }
        let l0_l_downsamples = slide_factors(source);
        let selection = match select_levels(&source.best_levels, &l0_l_downsamples, level_count) {
            Ok(selection) => selection,
            Err(e) => {
                return Err(e);
            },
        };
        proof {
            let chosen = source.chosen_levels(limit_bounds);
            let factors = factor_views(l0_l_downsamples@);
            let ratios = ratio_views(selection.ratios@);
            assert(level_tiles@ == tile_grids(level_dimensions@, tile_size));
            assert forall|lvl: int| 0 <= lvl < level_count implies {
                &&& (#[trigger] selection.levels@[lvl]) < slide_level_dimensions@.len()
                &&& ratios[lvl] == factors[selection.levels@[lvl] as int].under(
                    pow2((level_count - 1 - lvl) as nat),
                )
            } by {
                assert(chosen[lvl] < l0_l_downsamples@.len());
            }
        }
        let engine = DeepZoom {
            tile_size,
            overlap,
            limit_bounds,
            l0_offset,
            slide_level_dimensions,
            level_dimensions,
            level_tiles,
            level_count,
            slide_from_dz_level: selection.levels,
            l0_l_downsamples,
            l_z_downsamples: selection.ratios,
            background: DEFAULT_BACKGROUND,
        };
        proof {
            let view = engine@;
            let spec = deep_zoom_of(*source, tile_size, overlap, limit_bounds);
            assert(view.slide_from_dz_level =~= spec.slide_from_dz_level);
            assert(view.l_z_downsamples =~= spec.l_z_downsamples);
            assert(view == spec);
            lemma_built_tables(*source, tile_size, overlap, limit_bounds);
        }
        Ok(engine)
    }

    /// The engine with another colour for what the slide leaves fully
    /// transparent, as `0xRRGGBB`.
    pub fn with_background(self, color: u32) -> (out: DeepZoom)
        ensures
            out@ == (DeepZoomView { background: color, ..self@ }),
    {
        proof {
            use_type_invariant(&self);
        }
        let mut out = self;
        out.background = color;
        out
    }

    /// The colour shown where the slide is fully transparent.
    pub fn background(&self) -> (out: u32)
        ensures
            out == self@.background,
    {
        self.background
    }

    /// The number of levels of the pyramid.
    pub fn level_count(&self) -> (out: usize)
        ensures
            self@.wf(),
            out == self@.level_dimensions.len(),
            out == halvings(self@.slide_level_dimensions[0]) + 1,
    {
        proof {
            use_type_invariant(self);
        }
        self.level_count
    }

    /// The dimensions of each level of the pyramid, coarsest first: the
    /// last is the slide at full resolution, and each other level is the
    /// following one halved.
    pub fn level_dimensions(&self) -> (out: &Vec<Size>)
        ensures
            self@.wf(),
            out@ == self@.level_dimensions,
            out@ == pyramid(self@.slide_level_dimensions[0]),
            out@.len() >= 1,
            out@[out@.len() - 1] == self@.slide_level_dimensions[0],
    {
        proof {
            use_type_invariant(self);
            lemma_pyramid_shape(self@.slide_level_dimensions[0]);
        }
        &self.level_dimensions
    }

    /// The tile grid of each level of the pyramid: on each axis the
    /// extent of the level over the tile size, rounded up.
    pub fn level_tiles(&self) -> (out: &Vec<Size>)
        ensures
            self@.wf(),
            out@ == self@.level_tiles,
            out@ == tile_grids(self@.level_dimensions, self@.tile_size),
            self@.has_grids(),
    {
        proof {
            use_type_invariant(self);
            lemma_grids(self@);
        }
        &self.level_tiles
    }

    /// The region of the slide that fills a tile, and the size that the
    /// image of the tile must have. The region is computed as doubles
    /// compute it; for a slide whose downsamples are whole numbers,
    /// `laws::lemma_whole_levels` gives it in whole-number arithmetic.
    pub fn tile_info(&self, level: u32, address: Address) -> (out: Result<
        (Region, Size),
        OpenSlideError,
    >)
        ensures
            self@.wf(),
            outcome(out) == self@.info_of(level, address),
    {
        proof {
            use_type_invariant(self);
        }
        if level as usize >= self.level_count {
            return Err(OpenSlideError::IndexError(decimal_string(level)));
        }
        let lvl: usize = level as usize;
        let tiles = self.level_tiles[lvl];
        if address.x >= tiles.w || address.y >= tiles.h {
            let place = decimal_string(level).concat(" address ").concat(
                address.to_text().as_str(),
            );
            return Err(OpenSlideError::IndexError(place));
        }
        let dims = self.level_dimensions[lvl];
        let native: usize = self.slide_from_dz_level[lvl];
        assert(self@.slide_from_dz_level[lvl as int] == native);
        let limit = self.slide_level_dimensions[native];
        proof {
            lemma_ceil_div_range(dims.w as int, self.tile_size as int);
            lemma_ceil_div_range(dims.h as int, self.tile_size as int);
            assert(tiles == tile_grid(dims, self.tile_size));
        }
        let x = map_axis(
            self.tile_size,
            self.overlap,
            dims.w,
            tiles.w,
            address.x,
            &self.l_z_downsamples[lvl],
            &self.l0_l_downsamples[native],
            self.l0_offset.x,
            limit.w,
        );
        let y = map_axis(
            self.tile_size,
            self.overlap,
            dims.h,
            tiles.h,
            address.y,
            &self.l_z_downsamples[lvl],
            &self.l0_l_downsamples[native],
            self.l0_offset.y,
            limit.h,
        );
        let region = Region {
            address: Address { x: x.slide_origin, y: y.slide_origin },
            level: native,
            size: Size { w: x.level_extent, h: y.level_extent },
        };
        Ok((region, Size { w: x.tile_extent, h: y.tile_extent }))
    }

    /// The region of the slide that fills a tile.
    pub fn tile_region(&self, level: u32, address: Address) -> (out: Result<Region, OpenSlideError>)
        ensures
            self@.wf(),
            outcome(out) == self@.region_of(level, address),
    {
        match self.tile_info(level, address) {
            Ok(info) => Ok(info.0),
            Err(e) => Err(e),
        }
    }

    /// The size in pixels that the image of a tile must have.
    pub fn tile_size(&self, level: u32, address: Address) -> (out: Result<Size, OpenSlideError>)
        ensures
            self@.wf(),
            outcome(out) == self@.size_of(level, address),
    {
        match self.tile_info(level, address) {
            Ok(info) => Ok(info.1),
            Err(e) => Err(e),
        }
    }

    /// The image of a tile, made of the pixels that the slide holds in the
    /// region of the tile: `pixels` itself where it has the size of the tile,
    /// else resampled to that size. Pixels of another size that cannot be
    /// resampled, because an extent is above `MAX_RESAMPLE_EXTENT` or memory
    /// cannot hold the result, are refused as too large.
    pub fn read_tile(&self, level: u32, address: Address, pixels: Pixels) -> (out: Result<
        Pixels,
        OpenSlideError,
    >)
        ensures
            self@.wf(),
            self@.is_tile_of(
                level,
                address,
                pixels@,
                match out {
                    Ok(tile) => Ok(tile@),
                    Err(e) => Err(e@),
                },
            ),
            out matches Ok(tile) ==> tile@.size == self@.tile_dimensions(level, address),
    {
        let size = match self.tile_info(level, address) {
            Ok(info) => info.1,
            Err(e) => {
                return Err(e);
            },
        };
        match pixels.fit(size) {
            Some(tile) => Ok(tile),
            None => Err(OpenSlideError::InternalError(String::from_str("Tile too large"))),
        }
    }
}

} // verus!

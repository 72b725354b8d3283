//! The Deep Zoom level table: level dimensions by repeated halving, and the
//! tile grid of each level.

use crate::arith::{ceil_div, ceil_div_u32};
use crate::geometry::Size;
use vstd::arithmetic::power2::{lemma2_to64, lemma_pow2_unfold, pow2};
use vstd::prelude::*;

verus! {

/// Half of an extent, rounded up, and never less than one pixel.
pub open spec fn halve_extent(v: u32) -> u32 {
    if v <= 1 {
        1u32
    } else {
        ((v + 1) / 2) as u32
    }
}

/// The dimensions of the next coarser level.
pub open spec fn halve(s: Size) -> Size {
    Size { w: halve_extent(s.w), h: halve_extent(s.h) }
}

/// The longer of the two extents.
pub open spec fn longest(s: Size) -> u32 {
    if s.w >= s.h {
        s.w
    } else {
        s.h
    }
}

/// The coarsest level is reached: at most one pixel on each axis.
pub open spec fn is_apex(s: Size) -> bool {
    s.w <= 1 && s.h <= 1
}

/// How many times `s` is halved before the coarsest level is reached.
pub open spec fn halvings(s: Size) -> nat
    decreases longest(s),
{
    if is_apex(s) {
        0
    } else {
        1 + halvings(halve(s))
    }
}

/// `s` halved `k` times.
pub open spec fn halved(s: Size, k: nat) -> Size
    decreases k,
{
    if k == 0 {
        s
    } else {
        halve(halved(s, (k - 1) as nat))
    }
}

/// The level dimensions of the Deep Zoom pyramid over `full`, coarsest level
/// first: the last entry is `full`, and every other entry is the following
/// one halved.
pub open spec fn pyramid(full: Size) -> Seq<Size> {
    Seq::new(halvings(full) + 1, |lvl: int| halved(full, (halvings(full) - lvl) as nat))
}

/// The number of tiles of edge `tile_size` that cover `dims` on each axis.
pub open spec fn tile_grid(dims: Size, tile_size: u32) -> Size
    recommends
        tile_size > 0,
{
    Size {
        w: ceil_div(dims.w as int, tile_size as int) as u32,
        h: ceil_div(dims.h as int, tile_size as int) as u32,
    }
}

/// The tile grid of every level of `levels`.
pub open spec fn tile_grids(levels: Seq<Size>, tile_size: u32) -> Seq<Size> {
    Seq::new(levels.len(), |lvl: int| tile_grid(levels[lvl], tile_size))
}

/// Halving `halvings(s)` times reaches the coarsest level, and no fewer
/// halvings do.
pub proof fn lemma_halvings_reach_apex(s: Size, k: nat)
    requires
        k <= halvings(s),
    ensures
        is_apex(halved(s, k)) <==> k == halvings(s),
        halvings(halved(s, k)) == halvings(s) - k,
    decreases k,
{
    if k > 0 {
        let prev = halved(s, (k - 1) as nat);
        lemma_halvings_reach_apex(s, (k - 1) as nat);
        assert(!is_apex(prev));
        assert(halved(s, k) == halve(prev));
        assert(halvings(prev) == 1 + halvings(halve(prev)));
    }
    let here = halved(s, k);
    assert(is_apex(here) <==> halvings(here) == 0);
}

/// The number of halvings is the least `k` with `longest(s) <= 2^k`: a
/// pyramid has one level more than the binary logarithm of its longest
/// extent, rounded up.
pub proof fn lemma_halvings_is_log2(s: Size)
    ensures
        longest(s) <= pow2(halvings(s)),
        halvings(s) > 0 ==> pow2((halvings(s) - 1) as nat) < longest(s),
        halvings(s) <= 32,
    decreases longest(s),
{
    lemma2_to64();
    if !is_apex(s) {
        let t = halve(s);
        lemma_halvings_is_log2(t);
        let k = halvings(t);
        lemma_pow2_unfold(k + 1);
        if k > 0 {
            lemma_pow2_unfold(k);
        }
        assert(longest(t) == halve_extent(longest(s)));
        if k >= 32 {
            vstd::arithmetic::power2::lemma_pow2_strictly_increases(31, (k - 1) as nat);
        }
    }
}

/// The shape of a pyramid: its finest level is the full size, every other
/// level is the following one halved, and only its coarsest level has no
/// more than one pixel on each axis.
pub proof fn lemma_pyramid_shape(full: Size)
    ensures
        pyramid(full).len() == halvings(full) + 1,
        pyramid(full).last() == full,
        is_apex(pyramid(full)[0]),
        forall|lvl: int|
            0 <= lvl < pyramid(full).len() - 1 ==> #[trigger] pyramid(full)[lvl] == halve(
                pyramid(full)[lvl + 1],
            ),
        forall|lvl: int| 0 < lvl < pyramid(full).len() ==> !is_apex(#[trigger] pyramid(full)[lvl]),
{
    let count = halvings(full);
    lemma_halvings_reach_apex(full, count);
    assert forall|lvl: int| 0 < lvl < pyramid(full).len() implies !is_apex(
        #[trigger] pyramid(full)[lvl],
    ) by {
        lemma_halvings_reach_apex(full, (count - lvl) as nat);
    }
}

/// The extent of the next coarser level.
fn halve_extent_of(v: u32) -> (out: u32)
    ensures
        out == halve_extent(v),
{
    if v <= 1 {
        1
    } else {
        (v - 1) / 2 + 1
    }
}

/// Builds the level dimensions of the pyramid over `full`.
pub fn build_levels(full: Size) -> (levels: Vec<Size>)
    ensures
        levels@ == pyramid(full),
{
    let mut down: Vec<Size> = Vec::new();
    let mut cur = full;
    down.push(cur);
    while cur.w > 1 || cur.h > 1
        invariant
            down.len() >= 1,
            cur == down@[down.len() - 1],
            down.len() - 1 <= halvings(full),
            forall|i: int| 0 <= i < down.len() ==> down@[i] == halved(full, i as nat),
        decreases halvings(full) - (down.len() - 1),
    {
        proof {
            lemma_halvings_reach_apex(full, (down.len() - 1) as nat);
        }
        cur = Size { w: halve_extent_of(cur.w), h: halve_extent_of(cur.h) };
        down.push(cur);
    }
    proof {
        lemma_halvings_reach_apex(full, (down.len() - 1) as nat);
    }
    let count = down.len();
    let mut levels: Vec<Size> = Vec::new();
    let mut rest: usize = count;
    while rest > 0
        invariant
            count == down.len(),
            rest <= count,
            levels.len() == count - rest,
            forall|j: int| 0 <= j < levels.len() ==> levels@[j] == down@[count - 1 - j],
        decreases rest,
    {
        rest = rest - 1;
        levels.push(down[rest]);
    }
    assert(levels@ =~= pyramid(full));
    levels
}

/// The number of tiles of edge `tile_size` that cover `dims` on each axis.
pub fn tiles(dims: Size, tile_size: u32) -> (out: Size)
    requires
        tile_size > 0,
    ensures
        out == tile_grid(dims, tile_size),
{
    Size { w: ceil_div_u32(dims.w, tile_size), h: ceil_div_u32(dims.h, tile_size) }
}

/// Builds the tile grid of every level.
pub fn build_tile_grids(levels: &Vec<Size>, tile_size: u32) -> (grids: Vec<Size>)
    requires
        tile_size > 0,
    ensures
        grids@ == tile_grids(levels@, tile_size),
{
    let mut grids: Vec<Size> = Vec::new();
    let mut lvl: usize = 0;
    while lvl < levels.len()
        invariant
            tile_size > 0,
            lvl <= levels.len(),
            grids.len() == lvl,
            forall|j: int| 0 <= j < lvl ==> grids@[j] == tile_grid(levels@[j], tile_size),
        decreases levels.len() - lvl,
    {
        grids.push(tiles(levels[lvl], tile_size));
        lvl = lvl + 1;
    }
    assert(grids@ =~= tile_grids(levels@, tile_size));
    grids
}

} // verus!

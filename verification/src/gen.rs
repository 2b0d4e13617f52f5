//! The world generator: a pure, deterministic map from a seed to a fully
//! populated grid.
//!
//! The surface is synthesised from sparse random control points: K height
//! values drawn uniformly from [HEIGHT_MIN, HEIGHT_MAX] stand at K evenly
//! spaced positions in control-point index space spanning the map width.
//! Every column is mapped into that index space and its surface row is a
//! smoothing-kernel blend of the nearby control points. The kernel is the
//! normalised sinc window at the three contributing offsets; since all three
//! share the factor sin(pi d), normalisation cancels it and the blend reduces
//! to exact rational weights in the fractional position d, so the whole
//! computation is integer arithmetic. Below the surface every column gets one
//! grass row, five dirt rows, and stone to the bottom; a second pass scatters
//! tree structures on grass columns.

use vstd::prelude::*;
use vstd::assert_seqs_equal;
use crate::rng::{SeededRng, rng_draw};
use crate::tile::{AIR, DIRT, GRASS, LEAVES, LOG, STONE};
use crate::world::{MAP_AREA, MAP_HEIGHT, MAP_WIDTH, World, grid_dims, spec_in_bounds, spec_index};
use vstd::arithmetic::div_mod::{
    lemma_div_is_ordered,
    lemma_div_multiples_vanish,
    lemma_fundamental_div_mod,
    lemma_fundamental_div_mod_converse,
};

verus! {

/// Number of random surface control points, including both map edges.
pub const HEIGHT_POINT_COUNT: u32 = 2 + MAP_WIDTH / 150;

/// Lowest surface row a control point may take.
pub const HEIGHT_MIN: u32 = 75;

/// Highest surface row a control point may take.
pub const HEIGHT_MAX: u32 = 125;

/// Denominator of the column-to-index-space map: columns 0 and MAP_WIDTH - 1
/// land exactly on the first and last control points.
pub const INDEX_SPAN: u32 = MAP_WIDTH - 1;

/// The kernel's three contributing offsets around a fractional index
/// position d in [0, 1): the point below (offset -d), the point above
/// (offset 1 - d), and the second point below (offset -(d + 2)). Normalising
/// 1.5 * sinc(pi * offset) over these cancels the shared sin(pi d) factor and
/// leaves weights proportional to 1/d, 1/(1 - d) and 1/(d + 2). With
/// d = f / INDEX_SPAN these become the integer weights returned here, as
/// (weight of point q, weight of point q + 1, weight of point q - 2).
pub open spec fn spec_kernel_weights(f: int) -> (int, int, int) {
    let s = INDEX_SPAN as int;
    ((s - f) * (f + 2 * s), f * (f + 2 * s), f * (s - f))
}

/// The surface row of column x, blended from the control points `pts`.
pub open spec fn spec_surface_row(pts: Seq<u32>, x: int) -> int {
    let k = HEIGHT_POINT_COUNT as int;
    let n = (k - 1) * x;
    let q = n / (INDEX_SPAN as int);
    let f = n % (INDEX_SPAN as int);
    let (w0, w1, w2) = spec_kernel_weights(f);
    let num0 = pts[q] * w0;
    let num1 = if q + 1 < k {
        pts[q + 1] * w1
    } else {
        0
    };
    let num2 = if q >= 2 {
        pts[q - 2] * w2
    } else {
        0
    };
    let den0 = w0;
    let den1 = if q + 1 < k {
        w1
    } else {
        0
    };
    let den2 = if q >= 2 {
        w2
    } else {
        0
    };
    let num = num0 + num1 + num2;
    let den = den0 + den1 + den2;
    (num + den / 2) / den
}

/// All control points lie in the sampled band.
pub open spec fn points_in_band(pts: Seq<u32>) -> bool {
    &&& pts.len() == HEIGHT_POINT_COUNT
    &&& forall|i: int|
        0 <= i < pts.len() ==> HEIGHT_MIN <= #[trigger] pts[i] <= HEIGHT_MAX
}

/// The blended surface row never leaves the control points' band: the kernel
/// weights are non-negative and the blend is a weighted average, so every
/// column's surface row lies in [HEIGHT_MIN, HEIGHT_MAX].
pub proof fn lemma_surface_row_in_band(pts: Seq<u32>, x: int)
    requires
        points_in_band(pts),
        0 <= x < MAP_WIDTH,
    ensures
        HEIGHT_MIN <= spec_surface_row(pts, x) <= HEIGHT_MAX,
{
    let s = INDEX_SPAN as int;
    let k = HEIGHT_POINT_COUNT as int;
    let n = (k - 1) * x;
    assert(0 <= n <= (k - 1) * (MAP_WIDTH - 1)) by (nonlinear_arith)
        requires
            0 <= x <= MAP_WIDTH - 1,
            k == 28,
            n == (k - 1) * x,
    ;
    lemma_fundamental_div_mod(n, s);
    vstd::arithmetic::div_mod::lemma_mod_bound(n, s);
    vstd::arithmetic::div_mod::lemma_div_pos_is_pos(n, s);
    lemma_div_is_ordered(n, 27 * s, s);
    lemma_div_multiples_vanish(27, s);
    let q = n / s;
    let f = n % s;
    assert(0 <= q <= 27);
    assert(0 <= f < s);
    let (w0, w1, w2) = spec_kernel_weights(f);
    assert(w0 > 0 && w1 >= 0 && w2 >= 0) by (nonlinear_arith)
        requires
            0 <= f < s,
            s == 3999,
            w0 == (s - f) * (f + 2 * s),
            w1 == f * (f + 2 * s),
            w2 == f * (s - f),
    ;
    let num0 = pts[q] * w0;
    let num1 = if q + 1 < k {
        pts[q + 1] * w1
    } else {
        0
    };
    let num2 = if q >= 2 {
        pts[q - 2] * w2
    } else {
        0
    };
    let den1 = if q + 1 < k {
        w1
    } else {
        0
    };
    let den2 = if q >= 2 {
        w2
    } else {
        0
    };
    let num = num0 + num1 + num2;
    let den = w0 + den1 + den2;
    let lo = HEIGHT_MIN as int;
    let hi = HEIGHT_MAX as int;
    assert(lo * w0 <= num0 <= hi * w0) by (nonlinear_arith)
        requires
            w0 >= 0,
            lo <= pts[q] <= hi,
            num0 == pts[q] * w0,
    ;
    assert(lo * den1 <= num1 <= hi * den1) by (nonlinear_arith)
        requires
            w1 >= 0,
            num1 == if q + 1 < k {
                pts[q + 1] * w1
            } else {
                0
            },
            den1 == if q + 1 < k {
                w1
            } else {
                0
            },
            q + 1 < k ==> lo <= pts[q + 1] <= hi,
            lo >= 0,
    ;
    assert(lo * den2 <= num2 <= hi * den2) by (nonlinear_arith)
        requires
            w2 >= 0,
            num2 == if q >= 2 {
                pts[q - 2] * w2
            } else {
                0
            },
            den2 == if q >= 2 {
                w2
            } else {
                0
            },
            q >= 2 ==> lo <= pts[q - 2] <= hi,
            lo >= 0,
    ;
    assert(lo * den <= num <= hi * den) by (nonlinear_arith)
        requires
            lo * w0 <= num0 <= hi * w0,
            lo * den1 <= num1 <= hi * den1,
            lo * den2 <= num2 <= hi * den2,
            num == num0 + num1 + num2,
            den == w0 + den1 + den2,
    ;
    assert(den > 0);
    // lower bound: num + den/2 >= lo*den, so the quotient is at least lo
    vstd::arithmetic::div_mod::lemma_div_pos_is_pos(den, 2);
    lemma_div_is_ordered(lo * den, num + den / 2, den);
    lemma_div_multiples_vanish(lo, den);
    // upper bound: num + den/2 <= hi*den + (den - 1), whose quotient is hi
    vstd::arithmetic::div_mod::lemma_mod_bound(den, 2);
    lemma_fundamental_div_mod(den, 2);
    assert(den / 2 <= den - 1);
    lemma_div_is_ordered(num + den / 2, hi * den + (den - 1), den);
    lemma_fundamental_div_mod_converse(hi * den + (den - 1), den, hi, den - 1);
    assert(spec_surface_row(pts, x) == (num + den / 2) / den);
}

/// Computes the surface row of column x from the control points.
pub fn surface_row(pts: &Vec<u32>, x: u32) -> (r: u32)
    requires
        points_in_band(pts@),
        x < MAP_WIDTH,
    ensures
        r == spec_surface_row(pts@, x as int),
        HEIGHT_MIN <= r <= HEIGHT_MAX,
{
    proof {
        lemma_surface_row_in_band(pts@, x as int);
    }
    let s: u64 = INDEX_SPAN as u64;
    let n: u64 = (HEIGHT_POINT_COUNT as u64 - 1) * (x as u64);
    let q: u64 = n / s;
    let f: u64 = n % s;
    proof {
        lemma_fundamental_div_mod(n as int, s as int);
        vstd::arithmetic::div_mod::lemma_mod_bound(n as int, s as int);
        vstd::arithmetic::div_mod::lemma_div_pos_is_pos(n as int, s as int);
        lemma_div_is_ordered(n as int, 27 * s as int, s as int);
        lemma_div_multiples_vanish(27, s as int);
    }
    let a: u64 = s - f;
    let b: u64 = f + 2 * s;
    proof {
        assert(a * b <= 12000 * 12000 && f * b <= 12000 * 12000 && f * a <= 12000 * 12000)
            by (nonlinear_arith)
            requires
                0 <= a <= 12000,
                0 <= b <= 12000,
                0 <= f <= 12000,
        ;
        assert(a * b >= 1) by (nonlinear_arith)
            requires
                a >= 1,
                b >= 1,
        ;
    }
    let w0: u64 = a * b;
    let w1: u64 = f * b;
    let w2: u64 = f * a;
    proof {
        assert(forall|h: int, w: int|
            0 <= h <= 125 && 0 <= w <= 12000 * 12000 ==> 0 <= #[trigger] (h * w) <= 125 * 12000
                * 12000) by (nonlinear_arith);
    }
    let mut num: u64 = pts[q as usize] as u64 * w0;
    let mut den: u64 = w0;
    if q + 1 < HEIGHT_POINT_COUNT as u64 {
        num = num + pts[(q + 1) as usize] as u64 * w1;
        den = den + w1;
    }
    if q >= 2 {
        num = num + pts[(q - 2) as usize] as u64 * w2;
        den = den + w2;
    }
    let r: u64 = (num + den / 2) / den;
    proof {
        assert(r == spec_surface_row(pts@, x as int));
    }
    r as u32
}

/// The record of the first `n` control-point draws: every one requested the
/// same band [HEIGHT_MIN, HEIGHT_MAX].
pub open spec fn point_history(n: int) -> Seq<(u32, u32)> {
    Seq::new(n as nat, |i: int| (HEIGHT_MIN, HEIGHT_MAX))
}

/// The control points a fresh source with the given seed yields.
pub open spec fn spec_points(seed: Seq<u8>) -> Seq<u32> {
    Seq::new(
        HEIGHT_POINT_COUNT as nat,
        |i: int| rng_draw(seed, point_history(i), HEIGHT_MIN, HEIGHT_MAX),
    )
}

/// Draws the surface control points from a fresh source.
fn draw_points(rng: &mut SeededRng) -> (pts: Vec<u32>)
    requires
        old(rng).history() == Seq::<(u32, u32)>::empty(),
    ensures
        pts@ == spec_points(old(rng).seed()),
        points_in_band(pts@),
        final(rng).seed() == old(rng).seed(),
        final(rng).history() == point_history(HEIGHT_POINT_COUNT as int),
{
    let mut pts: Vec<u32> = Vec::new();
    let mut i: u32 = 0;
    while i < HEIGHT_POINT_COUNT
        invariant
            i == pts@.len(),
            i <= HEIGHT_POINT_COUNT,
            rng.seed() == old(rng).seed(),
            rng.history() == point_history(i as int),
            forall|j: int|
                0 <= j < i ==> #[trigger] pts@[j] == rng_draw(
                    old(rng).seed(),
                    point_history(j),
                    HEIGHT_MIN,
                    HEIGHT_MAX,
                ),
            forall|j: int| 0 <= j < i ==> HEIGHT_MIN <= #[trigger] pts@[j] <= HEIGHT_MAX,
        decreases HEIGHT_POINT_COUNT - i,
    {
        let v = rng.gen_range(HEIGHT_MIN, HEIGHT_MAX);
        pts.push(v);
        i = i + 1;
        proof {
            assert_seqs_equal!(rng.history(), point_history(i as int));
        }
    }
    proof {
        assert_seqs_equal!(pts@, spec_points(old(rng).seed()));
    }
    pts
}

/// The tile of a pristine (tree-free) column with surface row `s`, at row y:
/// air above the surface, grass at it, five rows of dirt below, then stone.
pub open spec fn spec_layer_tile(s: int, y: int) -> u16 {
    if y < s {
        AIR
    } else if y == s {
        GRASS
    } else if y <= s + 5 {
        DIRT
    } else {
        STONE
    }
}

/// The grid after the layering pass: every column carved independently from
/// its blended surface row.
pub open spec fn spec_layered_grid(pts: Seq<u32>) -> Seq<u16> {
    Seq::new(
        MAP_AREA as nat,
        |i: int|
            spec_layer_tile(
                spec_surface_row(pts, i % (MAP_WIDTH as int)),
                i / (MAP_WIDTH as int),
            ),
    )
}

/// Builds the layered grid cell by cell.
fn layered_map(pts: &Vec<u32>) -> (map: Vec<u16>)
    requires
        points_in_band(pts@),
    ensures
        map@ == spec_layered_grid(pts@),
        grid_dims(map@),
{
    let mut map: Vec<u16> = Vec::new();
    let mut i: usize = 0;
    while i < MAP_AREA as usize
        invariant
            i == map@.len(),
            i <= MAP_AREA,
            points_in_band(pts@),
            forall|j: int| 0 <= j < i ==> map@[j] == #[trigger] spec_layered_grid(pts@)[j],
        decreases MAP_AREA as int - i,
    {
        proof {
            vstd::arithmetic::div_mod::lemma_mod_bound(i as int, MAP_WIDTH as int);
            vstd::arithmetic::div_mod::lemma_div_pos_is_pos(i as int, MAP_WIDTH as int);
            lemma_div_is_ordered(i as int, MAP_AREA as int - 1, MAP_WIDTH as int);
            lemma_fundamental_div_mod_converse(
                MAP_AREA as int - 1,
                MAP_WIDTH as int,
                MAP_HEIGHT as int - 1,
                MAP_WIDTH as int - 1,
            );
        }
        let cx: u32 = (i % MAP_WIDTH as usize) as u32;
        let cy: u32 = (i / MAP_WIDTH as usize) as u32;
        let s: u32 = surface_row(pts, cx);
        let t: u16 = if cy < s {
            AIR
        } else if cy == s {
            GRASS
        } else if cy <= s + 5 {
            DIRT
        } else {
            STONE
        };
        map.push(t);
        i = i + 1;
    }
    proof {
        assert_seqs_equal!(map@, spec_layered_grid(pts@));
    }
    map
}

/// Shortest tree trunk, in tiles.
pub const TREE_HEIGHT_MIN: u32 = 5;

/// Tallest tree trunk, in tiles.
pub const TREE_HEIGHT_MAX: u32 = 10;

/// Number of tree placement attempts: one for every twenty columns.
pub const TREE_ATTEMPTS: u32 = MAP_WIDTH / 20;

/// Scans column x downward from row y: the row of the first non-air tile if
/// that tile is grass, and nothing when it is any other tile or the column is
/// all air from y down.
pub open spec fn spec_scan(g: Seq<u16>, x: int, y: int) -> Option<int>
    decreases MAP_HEIGHT as int - y,
{
    if y < 0 || y >= MAP_HEIGHT {
        None
    } else if g[spec_index(x, y)] != AIR {
        if g[spec_index(x, y)] == GRASS {
            Some(y)
        } else {
            None
        }
    } else {
        spec_scan(g, x, y + 1)
    }
}

/// The valid tree base of column x: the first non-air row from the top, when
/// that tile is grass. Any other first tile, an all-air column, or a column
/// outside the map aborts placement.
pub open spec fn spec_ground(g: Seq<u16>, x: int) -> Option<int> {
    if 0 <= x < MAP_WIDTH {
        spec_scan(g, x, 0)
    } else {
        None
    }
}

/// What a successful scan says of the column: grass at the base and air
/// everywhere above it.
pub proof fn lemma_scan_found(g: Seq<u16>, x: int, y: int, base: int)
    requires
        0 <= y,
        spec_scan(g, x, y) == Some(base),
    ensures
        y <= base < MAP_HEIGHT,
        g[spec_index(x, base)] == GRASS,
        forall|yy: int| y <= yy < base ==> g[spec_index(x, yy)] == AIR,
    decreases MAP_HEIGHT as int - y,
{
    if g[spec_index(x, y)] != AIR {
    } else {
        lemma_scan_found(g, x, y + 1, base);
    }
}

/// Skipping an all-air prefix does not change the scan's answer.
proof fn lemma_scan_skip(g: Seq<u16>, x: int, y: int)
    requires
        0 <= y <= MAP_HEIGHT,
        forall|yy: int| 0 <= yy < y ==> g[spec_index(x, yy)] == AIR,
    ensures
        spec_scan(g, x, 0) == spec_scan(g, x, y),
    decreases y,
{
    if y > 0 {
        lemma_scan_skip(g, x, y - 1);
        assert(g[spec_index(x, y - 1)] == AIR);
    }
}

/// Grass stands only in the control band of rows. The layering pass puts it
/// exactly at each column's surface row, and trees never write grass, so the
/// whole generation keeps this.
pub open spec fn grass_in_band(g: Seq<u16>) -> bool {
    forall|x: int, y: int|
        spec_in_bounds(x, y) && #[trigger] g[spec_index(x, y)] == GRASS ==> HEIGHT_MIN <= y
            <= HEIGHT_MAX
}

/// The tile a tree with base row `base` and trunk height `th` at column x
/// writes at cell (cx, cy), if any: dirt at the base (the trunk replaces the
/// grass blade), a trunk of logs directly above it, and five canopy rows of
/// leaves above the trunk, where row l (0 at the top) spans 2*l + 1 columns
/// centred on the trunk. Canopy cells that fall outside the map are dropped.
pub open spec fn spec_tree_tile(x: int, base: int, th: int, cx: int, cy: int) -> Option<u16> {
    if cx == x && cy == base {
        Some(DIRT)
    } else if cx == x && base - th <= cy <= base - 1 {
        Some(LOG)
    } else if base - 5 - th <= cy <= base - 1 - th && x - (cy - (base - 5 - th)) <= cx <= x + (cy
        - (base - 5 - th)) {
        Some(LEAVES)
    } else {
        None
    }
}

/// The grid after a tree is stamped onto it.
pub open spec fn spec_apply_tree(g: Seq<u16>, x: int, base: int, th: int) -> Seq<u16> {
    Seq::new(
        g.len(),
        |i: int|
            match spec_tree_tile(
                x,
                base,
                th,
                i % (MAP_WIDTH as int),
                i / (MAP_WIDTH as int),
            ) {
                Some(t) => t,
                None => g[i],
            },
    )
}

/// One placement attempt at column x: nothing when the column has no valid
/// grass base; otherwise one more draw picks the trunk height and the tree is
/// stamped. Returns the new grid and the new draw record.
pub open spec fn spec_attempt(g: Seq<u16>, x: int, seed: Seq<u8>, hist: Seq<(u32, u32)>) -> (
    Seq<u16>,
    Seq<(u32, u32)>,
) {
    match spec_ground(g, x) {
        Some(base) => {
            let th = rng_draw(seed, hist, TREE_HEIGHT_MIN, TREE_HEIGHT_MAX);
            (
                spec_apply_tree(g, x, base, th as int),
                hist.push((TREE_HEIGHT_MIN, TREE_HEIGHT_MAX)),
            )
        },
        None => (g, hist),
    }
}

/// The grid and draw record after the first n placement attempts, each at a
/// column drawn uniformly from [0, MAP_WIDTH] (both ends included).
pub open spec fn spec_trees(seed: Seq<u8>, g0: Seq<u16>, hist0: Seq<(u32, u32)>, n: int) -> (
    Seq<u16>,
    Seq<(u32, u32)>,
)
    decreases n,
{
    if n <= 0 {
        (g0, hist0)
    } else {
        let (g, hist) = spec_trees(seed, g0, hist0, n - 1);
        let x = rng_draw(seed, hist, 0, MAP_WIDTH);
        spec_attempt(g, x as int, seed, hist.push((0, MAP_WIDTH)))
    }
}

/// The value of cell i while a tree is being stamped: the base and the first
/// `trunk` trunk segments are down, as are the first `lrow` full canopy rows
/// and the first `lcol` cells of canopy row `lrow`.
pub open spec fn spec_tree_partial(
    g0: Seq<u16>,
    x: int,
    base: int,
    th: int,
    trunk: int,
    lrow: int,
    lcol: int,
    i: int,
) -> u16 {
    let cx = i % (MAP_WIDTH as int);
    let cy = i / (MAP_WIDTH as int);
    if cx == x && cy == base {
        DIRT
    } else if cx == x && base - trunk <= cy <= base - 1 {
        LOG
    } else {
        let l = cy - (base - 5 - th);
        if 0 <= l < 5 && x - l <= cx <= x + l && (l < lrow || (l == lrow && cx - (x - l) < lcol)) {
            LEAVES
        } else {
            g0[i]
        }
    }
}

/// Helper facts about a flat index, for the pointwise stamping proofs.
proof fn lemma_flat_coords(i: int)
    requires
        0 <= i < MAP_AREA,
    ensures
        spec_in_bounds(i % (MAP_WIDTH as int), i / (MAP_WIDTH as int)),
        i == spec_index(i % (MAP_WIDTH as int), i / (MAP_WIDTH as int)),
{
    lemma_fundamental_div_mod(i, MAP_WIDTH as int);
    vstd::arithmetic::div_mod::lemma_mod_bound(i, MAP_WIDTH as int);
    vstd::arithmetic::div_mod::lemma_div_pos_is_pos(i, MAP_WIDTH as int);
    lemma_div_is_ordered(i, MAP_AREA as int - 1, MAP_WIDTH as int);
    lemma_fundamental_div_mod_converse(
        MAP_AREA as int - 1,
        MAP_WIDTH as int,
        MAP_HEIGHT as int - 1,
        MAP_WIDTH as int - 1,
    );
}

/// Finds the valid tree base of column x, if any.
fn ground_row_if_clear(w: &World, x: u32) -> (r: Option<u32>)
    requires
        w.wf(),
    ensures
        (match r {
            Some(b) => spec_ground(w.grid(), x as int) == Some(b as int),
            None => spec_ground(w.grid(), x as int) is None,
        }),
{
    if x >= MAP_WIDTH {
        return None;
    }
    let mut y: u32 = 0;
    while y < MAP_HEIGHT
        invariant
            w.wf(),
            x < MAP_WIDTH,
            y <= MAP_HEIGHT,
            forall|yy: int| 0 <= yy < y ==> w.grid()[spec_index(x as int, yy)] == AIR,
        decreases MAP_HEIGHT - y,
    {
        let t = match w.get_block(x, y) {
            Ok(t) => t,
            Err(_) => {
                return None;
            },
        };
        if t != AIR {
            proof {
                lemma_scan_skip(w.grid(), x as int, y as int);
            }
            if t == GRASS {
                return Some(y);
            } else {
                return None;
            }
        }
        y = y + 1;
    }
    proof {
        lemma_scan_skip(w.grid(), x as int, MAP_HEIGHT as int);
    }
    None
}

/// One tree placement attempt at column x, mirroring `spec_attempt`.
fn attempt_tree(w: &mut World, x: u32, rng: &mut SeededRng)
    requires
        old(w).wf(),
        grass_in_band(old(w).grid()),
        x <= MAP_WIDTH,
    ensures
        final(w).wf(),
        final(rng).seed() == old(rng).seed(),
        (final(w).grid(), final(rng).history()) == spec_attempt(
            old(w).grid(),
            x as int,
            old(rng).seed(),
            old(rng).history(),
        ),
        spec_ground(old(w).grid(), x as int) is Some ==> TREE_HEIGHT_MIN <= rng_draw(
            old(rng).seed(),
            old(rng).history(),
            TREE_HEIGHT_MIN,
            TREE_HEIGHT_MAX,
        ) <= TREE_HEIGHT_MAX,
{
    let ghost g0 = w.grid();
    let base = match ground_row_if_clear(w, x) {
        Some(base) => base,
        None => {
            return ;
        },
    };
    proof {
        lemma_scan_found(g0, x as int, 0, base as int);
        assert(g0[spec_index(x as int, base as int)] == GRASS);
        assert(HEIGHT_MIN <= base <= HEIGHT_MAX);
    }
    let th = rng.gen_range(TREE_HEIGHT_MIN, TREE_HEIGHT_MAX);
    let _ = w.set_block(x, base, DIRT);
    proof {
        crate::world::lemma_index_in_range(x as int, base as int);
        assert_seqs_equal!(
            w.grid(),
            Seq::new(g0.len(), |i: int| spec_tree_partial(
                g0, x as int, base as int, th as int, 0, 0, 0, i)),
            i => {
                lemma_flat_coords(i);
                crate::world::lemma_index_in_range(x as int, base as int);
            }
        );
    }
    let mut j: u32 = 0;
    while j < th
        invariant
            w.wf(),
            g0.len() == MAP_AREA,
            x < MAP_WIDTH,
            HEIGHT_MIN <= base <= HEIGHT_MAX,
            TREE_HEIGHT_MIN <= th <= TREE_HEIGHT_MAX,
            j <= th,
            w.grid() == Seq::new(
                g0.len(),
                |i: int|
                    spec_tree_partial(g0, x as int, base as int, th as int, j as int, 0, 0, i),
            ),
        decreases th - j,
    {
        let ghost gpre = w.grid();
        let _ = w.set_block(x, base - 1 - j, LOG);
        proof {
            crate::world::lemma_index_in_range(x as int, base as int - 1 - j as int);
            assert_seqs_equal!(
                w.grid(),
                Seq::new(g0.len(), |i: int| spec_tree_partial(
                    g0, x as int, base as int, th as int, j as int + 1, 0, 0, i)),
                i => {
                    lemma_flat_coords(i);
                    crate::world::lemma_index_in_range(x as int, base as int - 1 - j as int);
                }
            );
        }
        j = j + 1;
    }
    let mut lrow: u32 = 0;
    while lrow < 5
        invariant
            w.wf(),
            g0.len() == MAP_AREA,
            x < MAP_WIDTH,
            HEIGHT_MIN <= base <= HEIGHT_MAX,
            TREE_HEIGHT_MIN <= th <= TREE_HEIGHT_MAX,
            lrow <= 5,
            w.grid() == Seq::new(
                g0.len(),
                |i: int|
                    spec_tree_partial(
                        g0,
                        x as int,
                        base as int,
                        th as int,
                        th as int,
                        lrow as int,
                        0,
                        i,
                    ),
            ),
        decreases 5 - lrow,
    {
        let mut lcol: u32 = 0;
        while lcol < 2 * lrow + 1
            invariant
                w.wf(),
                g0.len() == MAP_AREA,
                x < MAP_WIDTH,
                HEIGHT_MIN <= base <= HEIGHT_MAX,
                TREE_HEIGHT_MIN <= th <= TREE_HEIGHT_MAX,
                lrow < 5,
                lcol <= 2 * lrow + 1,
                w.grid() == Seq::new(
                    g0.len(),
                    |i: int|
                        spec_tree_partial(
                            g0,
                            x as int,
                            base as int,
                            th as int,
                            th as int,
                            lrow as int,
                            lcol as int,
                            i,
                        ),
                ),
            decreases 2 * lrow + 1 - lcol,
        {
            let ghost gpre = w.grid();
            let cy: u32 = base - 5 - th + lrow;
            if x + lcol >= lrow {
                let cx: u32 = x + lcol - lrow;
                let _ = w.set_block(cx, cy, LEAVES);
                proof {
                    if cx < MAP_WIDTH {
                        crate::world::lemma_index_in_range(cx as int, cy as int);
                    }
                }
            }
            proof {
                assert_seqs_equal!(
                    w.grid(),
                    Seq::new(g0.len(), |i: int| spec_tree_partial(
                        g0, x as int, base as int, th as int, th as int,
                        lrow as int, lcol as int + 1, i)),
                    i => {
                        lemma_flat_coords(i);
                        let cxi: int = x as int + lcol as int - lrow as int;
                        let wi: int = MAP_WIDTH as int;
                        if 0 <= cxi && cxi < wi {
                            crate::world::lemma_index_in_range(cxi, cy as int);
                        }
                    }
                );
            }
            lcol = lcol + 1;
        }
        proof {
            assert_seqs_equal!(
                w.grid(),
                Seq::new(g0.len(), |i: int| spec_tree_partial(
                    g0, x as int, base as int, th as int, th as int,
                    lrow as int + 1, 0, i)),
                i => {
                    lemma_flat_coords(i);
                }
            );
        }
        lrow = lrow + 1;
    }
    proof {
        assert_seqs_equal!(
            w.grid(),
            spec_apply_tree(g0, x as int, base as int, th as int),
            i => {
                lemma_flat_coords(i);
            }
        );
    }
}

/// The entire generated grid, as a function of the seed alone.
pub open spec fn spec_generate(seed: Seq<u8>) -> Seq<u16> {
    spec_trees(
        seed,
        spec_layered_grid(spec_points(seed)),
        point_history(HEIGHT_POINT_COUNT as int),
        TREE_ATTEMPTS as int,
    ).0
}

/// The draws the tree pass makes stay in their requested ranges: the m-th
/// attempt's column pick is at most MAP_WIDTH and its trunk height (drawn
/// only when the column pick found a base, but named unconditionally) lies in
/// [TREE_HEIGHT_MIN, TREE_HEIGHT_MAX]. Exported by the generator, since it is
/// a fact about the random source, not about the spec-level draw names.
pub open spec fn tree_draws_in_range(
    seed: Seq<u8>,
    g0: Seq<u16>,
    hist0: Seq<(u32, u32)>,
    n: int,
) -> bool {
    forall|m: int|
        0 <= m < n ==> {
            let g = (#[trigger] spec_trees(seed, g0, hist0, m)).0;
            let hist = spec_trees(seed, g0, hist0, m).1;
            let x = rng_draw(seed, hist, 0, MAP_WIDTH);
            &&& x <= MAP_WIDTH
            &&& spec_ground(g, x as int) is Some ==> TREE_HEIGHT_MIN <= rng_draw(
                seed,
                hist.push((0, MAP_WIDTH)),
                TREE_HEIGHT_MIN,
                TREE_HEIGHT_MAX,
            ) <= TREE_HEIGHT_MAX
        }
}

/// The layered grid keeps grass in the control band.
proof fn lemma_layered_grass_in_band(pts: Seq<u32>)
    requires
        points_in_band(pts),
    ensures
        grass_in_band(spec_layered_grid(pts)),
{
    let g = spec_layered_grid(pts);
    assert forall|x: int, y: int|
        spec_in_bounds(x, y) && #[trigger] g[spec_index(x, y)] == GRASS implies HEIGHT_MIN <= y
        <= HEIGHT_MAX by {
        crate::world::lemma_index_in_range(x, y);
        lemma_surface_row_in_band(pts, x);
        assert(g[spec_index(x, y)] == spec_layer_tile(spec_surface_row(pts, x), y));
    }
}

/// Stamping a tree writes only dirt, logs and leaves, so it keeps grass in
/// the control band.
proof fn lemma_attempt_grass_in_band(g: Seq<u16>, x: int, seed: Seq<u8>, hist: Seq<(u32, u32)>)
    requires
        grass_in_band(g),
        grid_dims(g),
    ensures
        grass_in_band(spec_attempt(g, x, seed, hist).0),
        grid_dims(spec_attempt(g, x, seed, hist).0),
{
    let g2 = spec_attempt(g, x, seed, hist).0;
    assert forall|xx: int, yy: int|
        spec_in_bounds(xx, yy) && #[trigger] g2[spec_index(xx, yy)] == GRASS implies HEIGHT_MIN
        <= yy <= HEIGHT_MAX by {
        crate::world::lemma_index_in_range(xx, yy);
        if spec_ground(g, x) is Some {
            assert(g2[spec_index(xx, yy)] == GRASS ==> g[spec_index(xx, yy)] == GRASS);
        }
    }
}

/// Generates the world: a pure, deterministic function of the seed. The
/// result is byte-identical between runs with the same seed, every control
/// point and thereby every column's surface row lies in the control band,
/// and the draws of the tree pass lie in their requested ranges.
pub fn generate_world(seed: [u8; 32]) -> (w: World)
    ensures
        w.wf(),
        w.grid() == spec_generate(seed@),
        points_in_band(spec_points(seed@)),
        tree_draws_in_range(
            seed@,
            spec_layered_grid(spec_points(seed@)),
            point_history(HEIGHT_POINT_COUNT as int),
            TREE_ATTEMPTS as int,
        ),
{
    let mut rng = SeededRng::from_seed(seed);
    let pts = draw_points(&mut rng);
    let map = layered_map(&pts);
    let ghost g0 = map@;
    let ghost hist0 = rng.history();
    let mut w = World::from_map(map);
    proof {
        lemma_layered_grass_in_band(pts@);
    }
    let mut n: u32 = 0;
    while n < TREE_ATTEMPTS
        invariant
            w.wf(),
            n <= TREE_ATTEMPTS,
            grass_in_band(w.grid()),
            rng.seed() == seed@,
            (w.grid(), rng.history()) == spec_trees(seed@, g0, hist0, n as int),
            tree_draws_in_range(seed@, g0, hist0, n as int),
        decreases TREE_ATTEMPTS - n,
    {
        let ghost gpre = w.grid();
        let ghost histpre = rng.history();
        let x = rng.gen_range(0, MAP_WIDTH);
        let ghost th_draw = rng_draw(seed@, histpre.push((0, MAP_WIDTH)), TREE_HEIGHT_MIN,
            TREE_HEIGHT_MAX);
        attempt_tree(&mut w, x, &mut rng);
        proof {
            lemma_attempt_grass_in_band(gpre, x as int, seed@, histpre.push((0, MAP_WIDTH)));
            if spec_ground(gpre, x as int) is Some {
                // the trunk draw was really made, so its range promise holds
                assert(rng.history() == histpre.push((0, MAP_WIDTH)).push(
                    (TREE_HEIGHT_MIN, TREE_HEIGHT_MAX),
                ));
            }
            assert forall|m: int| 0 <= m < n as int + 1 implies {
                let g = (#[trigger] spec_trees(seed@, g0, hist0, m)).0;
                let hist = spec_trees(seed@, g0, hist0, m).1;
                let xm = rng_draw(seed@, hist, 0, MAP_WIDTH);
                &&& xm <= MAP_WIDTH
                &&& spec_ground(g, xm as int) is Some ==> TREE_HEIGHT_MIN <= rng_draw(
                    seed@,
                    hist.push((0, MAP_WIDTH)),
                    TREE_HEIGHT_MIN,
                    TREE_HEIGHT_MAX,
                ) <= TREE_HEIGHT_MAX
            } by {
                if m < n as int {
                    assert(tree_draws_in_range(seed@, g0, hist0, n as int));
                } else {
                    assert(spec_trees(seed@, g0, hist0, m) == (gpre, histpre));
                }
            }
        }
        n = n + 1;
    }
    w
}

/// Determinism: the generated grid is a function of the seed alone, so two
/// grids generated from the same seed are byte-identical.
pub proof fn lemma_generation_deterministic(seed: Seq<u8>, g1: Seq<u16>, g2: Seq<u16>)
    requires
        g1 == spec_generate(seed),
        g2 == spec_generate(seed),
    ensures
        g1 == g2,
{
}

/// Layering invariant of the tree pass: every cell is either its column's
/// pristine layer tile or was overwritten by a tree, and trees write nothing
/// but dirt, logs and leaves.
proof fn lemma_trees_keep_layering(seed: Seq<u8>, pts: Seq<u32>, hist0: Seq<(u32, u32)>, n: int)
    requires
        n >= 0,
    ensures
        ({
            let g = spec_trees(seed, spec_layered_grid(pts), hist0, n).0;
            &&& grid_dims(g)
            &&& forall|i: int|
                0 <= i < MAP_AREA ==> #[trigger] g[i] == spec_layered_grid(pts)[i] || g[i] == DIRT
                    || g[i] == LOG || g[i] == LEAVES
        }),
    decreases n,
{
    if n > 0 {
        lemma_trees_keep_layering(seed, pts, hist0, n - 1);
    }
}

/// Layering: scanning any column of the generated grid downward from row 0
/// yields air above the surface row, exactly one grass tile at it, five dirt
/// rows below it and stone to the bottom — except at cells a tree overwrote,
/// which hold dirt, log or leaves.
pub proof fn lemma_layering_invariant(seed: Seq<u8>, x: int, y: int)
    requires
        spec_in_bounds(x, y),
    ensures
        ({
            let t = spec_generate(seed)[spec_index(x, y)];
            ||| t == spec_layer_tile(spec_surface_row(spec_points(seed), x), y)
            ||| t == DIRT
            ||| t == LOG
            ||| t == LEAVES
        }),
{
    lemma_trees_keep_layering(
        seed,
        spec_points(seed),
        point_history(HEIGHT_POINT_COUNT as int),
        TREE_ATTEMPTS as int,
    );
    crate::world::lemma_index_in_range(x, y);
}

/// Each step of the tree pass either leaves the grid unchanged or stamps one
/// tree whose base is the first non-air row of its column, holding grass.
pub proof fn lemma_trees_step(seed: Seq<u8>, g0: Seq<u16>, hist0: Seq<(u32, u32)>, n: int)
    requires
        n >= 1,
    ensures
        ({
            let g = spec_trees(seed, g0, hist0, n - 1).0;
            let hist = spec_trees(seed, g0, hist0, n - 1).1;
            let x = rng_draw(seed, hist, 0, MAP_WIDTH);
            let th = rng_draw(
                seed,
                hist.push((0, MAP_WIDTH)),
                TREE_HEIGHT_MIN,
                TREE_HEIGHT_MAX,
            );
            let gn = spec_trees(seed, g0, hist0, n).0;
            match spec_ground(g, x as int) {
                Some(base) => gn == spec_apply_tree(g, x as int, base, th as int),
                None => gn == g,
            }
        }),
{
}

/// Tree shape: a stamped tree stands only where the column's first non-air
/// tile, scanned downward from row 0, was grass; its trunk is a contiguous
/// vertical run of exactly `th` log tiles starting right above the base,
/// delimited by dirt below (the replaced grass blade) and leaves above.
pub proof fn lemma_tree_shape(g: Seq<u16>, x: int, base: int, th: int)
    requires
        grid_dims(g),
        grass_in_band(g),
        0 <= x < MAP_WIDTH,
        spec_ground(g, x) == Some(base),
        TREE_HEIGHT_MIN <= th <= TREE_HEIGHT_MAX,
    ensures
        HEIGHT_MIN <= base <= HEIGHT_MAX,
        g[spec_index(x, base)] == GRASS,
        forall|yy: int| 0 <= yy < base ==> g[spec_index(x, yy)] == AIR,
        spec_apply_tree(g, x, base, th)[spec_index(x, base)] == DIRT,
        forall|yy: int|
            base - th <= yy <= base - 1 ==> #[trigger] spec_apply_tree(g, x, base, th)[spec_index(
                x,
                yy,
            )] == LOG,
        spec_apply_tree(g, x, base, th)[spec_index(x, base - th - 1)] == LEAVES,
{
    lemma_scan_found(g, x, 0, base);
    crate::world::lemma_index_in_range(x, base);
    let g2 = spec_apply_tree(g, x, base, th);
    assert forall|yy: int| base - th <= yy <= base - 1 implies #[trigger] g2[spec_index(x, yy)]
        == LOG by {
        crate::world::lemma_index_in_range(x, yy);
    }
    crate::world::lemma_index_in_range(x, base - th - 1);
}


/// Grass stands exactly at its column's surface row: trees never write
/// grass, so any grass cell of the generated grid is the pristine surface
/// tile.
pub proof fn lemma_grass_only_at_surface(seed: Seq<u8>, x: int, y: int)
    requires
        spec_in_bounds(x, y),
        spec_generate(seed)[spec_index(x, y)] == GRASS,
    ensures
        y == spec_surface_row(spec_points(seed), x),
{
    lemma_layering_invariant(seed, x, y);
}

/// The sky band is clear: every cell above the highest canopy row (trunks
/// start at surface rows of at least HEIGHT_MIN and reach at most
/// TREE_HEIGHT_MAX + 5 tiles above them) is air in the generated grid.
proof fn lemma_trees_keep_sky(seed: Seq<u8>, pts: Seq<u32>, hist0: Seq<(u32, u32)>, n: int)
    requires
        n >= 0,
        points_in_band(pts),
        tree_draws_in_range(seed, spec_layered_grid(pts), hist0, n),
    ensures
        ({
            let g = spec_trees(seed, spec_layered_grid(pts), hist0, n).0;
            &&& grid_dims(g)
            &&& grass_in_band(g)
            &&& forall|x: int, y: int|
                spec_in_bounds(x, y) && y < HEIGHT_MIN - TREE_HEIGHT_MAX - 5 ==> #[trigger] g[spec_index(
                    x,
                    y,
                )] == AIR
        }),
    decreases n,
{
    let g0 = spec_layered_grid(pts);
    let top = HEIGHT_MIN as int - TREE_HEIGHT_MAX as int - 5;
    if n == 0 {
        lemma_layered_grass_in_band(pts);
        assert forall|x: int, y: int| spec_in_bounds(x, y) && y < top implies #[trigger] g0[spec_index(
            x,
            y,
        )] == AIR by {
            crate::world::lemma_index_in_range(x, y);
            lemma_surface_row_in_band(pts, x);
        }
    } else {
        assert(tree_draws_in_range(seed, g0, hist0, n - 1)) by {
            assert forall|m: int| 0 <= m < n - 1 implies {
                let gm = (#[trigger] spec_trees(seed, g0, hist0, m)).0;
                let hist = spec_trees(seed, g0, hist0, m).1;
                let xm = rng_draw(seed, hist, 0, MAP_WIDTH);
                &&& xm <= MAP_WIDTH
                &&& spec_ground(gm, xm as int) is Some ==> TREE_HEIGHT_MIN <= rng_draw(
                    seed,
                    hist.push((0, MAP_WIDTH)),
                    TREE_HEIGHT_MIN,
                    TREE_HEIGHT_MAX,
                ) <= TREE_HEIGHT_MAX
            } by {
                assert(tree_draws_in_range(seed, g0, hist0, n));
            }
        }
        lemma_trees_keep_sky(seed, pts, hist0, n - 1);
        let g = spec_trees(seed, g0, hist0, n - 1).0;
        let hist = spec_trees(seed, g0, hist0, n - 1).1;
        let x = rng_draw(seed, hist, 0, MAP_WIDTH);
        lemma_attempt_grass_in_band(g, x as int, seed, hist.push((0, MAP_WIDTH)));
        let gn = spec_trees(seed, g0, hist0, n).0;
        assert(tree_draws_in_range(seed, g0, hist0, n));
        assert(spec_trees(seed, g0, hist0, n - 1) == (g, hist));
        if spec_ground(g, x as int) is Some {
            let base = spec_ground(g, x as int)->Some_0;
            let th = rng_draw(
                seed,
                hist.push((0, MAP_WIDTH)),
                TREE_HEIGHT_MIN,
                TREE_HEIGHT_MAX,
            );
            lemma_scan_found(g, x as int, 0, base);
            crate::world::lemma_index_in_range(x as int, base);
            assert(HEIGHT_MIN <= base <= HEIGHT_MAX);
            assert forall|xx: int, yy: int| spec_in_bounds(xx, yy) && yy < top implies #[trigger] gn[spec_index(
                xx,
                yy,
            )] == AIR by {
                crate::world::lemma_index_in_range(xx, yy);
                assert(spec_tree_tile(x as int, base, th as int, xx, yy) is None);
            }
        }
    }
}

/// Above the canopy band the generated grid is all air: no terrain and no
/// tree reaches rows above HEIGHT_MIN - TREE_HEIGHT_MAX - 5.
pub proof fn lemma_sky_is_clear(seed: Seq<u8>, x: int, y: int)
    requires
        spec_in_bounds(x, y),
        y < HEIGHT_MIN - TREE_HEIGHT_MAX - 5,
        points_in_band(spec_points(seed)),
        tree_draws_in_range(
            seed,
            spec_layered_grid(spec_points(seed)),
            point_history(HEIGHT_POINT_COUNT as int),
            TREE_ATTEMPTS as int,
        ),
    ensures
        spec_generate(seed)[spec_index(x, y)] == AIR,
{
    lemma_trees_keep_sky(
        seed,
        spec_points(seed),
        point_history(HEIGHT_POINT_COUNT as int),
        TREE_ATTEMPTS as int,
    );
}

/// The seed the session uses: thirty-two bytes of one.
pub open spec fn spec_default_seed() -> Seq<u8> {
    Seq::new(32, |i: int| 1u8)
}

impl Default for World {
    /// The session's world: generated once from the fixed seed.
    fn default() -> (w: World)
        ensures
            w.wf(),
            w.grid() == spec_generate(spec_default_seed()),
    {
        let seed: [u8; 32] = [1;32];
        proof {
            assert_seqs_equal!(seed@, spec_default_seed());
        }
        generate_world(seed)
    }
}

} // verus!
